use xmla_ssas_rs::connection::error::XmlaError;
use xmla_ssas_rs::xmla::dataset::{parse_execute_response, XmlaDataset};

fn member(caption: &str) -> String {
    format!(
        r#"<Member Hierarchy="[Measures]"><UName>[Measures].[{0}]</UName><Caption>{0}</Caption><LName>[Measures].[MeasuresLevel]</LName><LNum>0</LNum><DisplayInfo>0</DisplayInfo></Member>"#,
        caption
    )
}

fn response(axes: &str, cells: &str) -> String {
    format!(
        r#"<soap:Envelope xmlns:soap="http://schemas.xmlsoap.org/soap/envelope/"><soap:Body><ExecuteResponse xmlns="urn:schemas-microsoft-com:xml-analysis"><return><root xmlns="urn:schemas-microsoft-com:xml-analysis:mddataset"><Axes>{}</Axes><CellData>{}</CellData></root></return></ExecuteResponse></soap:Body></soap:Envelope>"#,
        axes, cells
    )
}

fn sales_axes() -> String {
    format!(
        r#"<Axis name="Axis0"><Tuples><Tuple>{}</Tuple><Tuple>{}</Tuple></Tuples></Axis><Axis name="SlicerAxis"><Tuples><Tuple>{}</Tuple></Tuples></Axis>"#,
        member("Sales Amount"),
        member("Reseller Sales Amount"),
        member("Default")
    )
}

const SALES_CELLS: &str = r#"<Cell CellOrdinal="0"><Value>109809274.2</Value><FmtValue>$109,809,274.20</FmtValue></Cell><Cell CellOrdinal="1"><Value>80450596.98</Value><FmtValue>$80,450,596.98</FmtValue></Cell>"#;

fn parse(xml: &str) -> XmlaDataset {
    parse_execute_response(xml).unwrap()
}

#[test]
fn two_measures_on_columns() {
    let dataset = parse(&response(&sales_axes(), SALES_CELLS));
    assert_eq!(dataset.column_count(), 2);
    assert_eq!(dataset.row_count(), 1);
    let axis0 = dataset.axes().iter().find(|axis| axis.name() == "Axis0").unwrap();
    let captions: Vec<&str> = axis0
        .tuples()
        .iter()
        .map(|t| t.members()[0].caption())
        .collect();
    assert_eq!(captions, vec!["Sales Amount", "Reseller Sales Amount"]);
    let first = &axis0.tuples()[0].members()[0];
    assert_eq!(first.hierarchy(), "[Measures]");
    assert_eq!(first.unique_name(), "[Measures].[Sales Amount]");
    assert_eq!(first.level_name(), "[Measures].[MeasuresLevel]");
    assert_eq!(first.level_number(), 0);
    assert_eq!(first.display_info(), 0);
    assert_eq!(dataset.cell_formatted_value_at(0, 0), Some("$109,809,274.20"));
    assert_eq!(dataset.cell_formatted_value_at(1, 0), Some("$80,450,596.98"));
    assert_eq!(dataset.cell_at(1, 0).unwrap().value(), Some("80450596.98"));
    assert!(dataset.cell_at(1, 1).is_none());
    assert!(dataset.cell_at(2, 0).is_none());
    assert_eq!(dataset.cell(1).unwrap().ordinal(), 1);
    assert!(dataset.cell(2).is_none());
    assert_eq!(dataset.cells().len(), 2);
    assert_eq!(dataset.axis(1).unwrap().name(), "SlicerAxis");
    assert!(dataset.axis(2).is_none());
}

#[test]
fn sparse_cells_are_found_by_ordinal() {
    let cells = r#"<Cell CellOrdinal="1"><FmtValue>b</FmtValue></Cell><Cell CellOrdinal="0"/>"#;
    let dataset = parse(&response(&sales_axes(), cells));
    assert_eq!(dataset.cell_at(1, 0).unwrap().formatted_value(), "b");
    assert_eq!(dataset.cell_at(0, 0).unwrap().formatted_value(), "");
    assert_eq!(dataset.cell_at(0, 0).unwrap().value(), None);
    assert_eq!(dataset.cells()[0].ordinal(), 1);
}

#[test]
fn duplicate_cell_ordinal_is_refused() {
    let cells = r#"<Cell CellOrdinal="0"/><Cell CellOrdinal="7"/><Cell CellOrdinal="7"/>"#;
    let error = parse_execute_response(&response(&sales_axes(), cells)).unwrap_err();
    assert!(matches!(error, XmlaError::ParsingError(ref m) if m == "Duplicate cell ordinal 7"));
}

#[test]
fn invalid_cell_ordinal_is_refused() {
    let cells = r#"<Cell CellOrdinal="x1"/>"#;
    let error = parse_execute_response(&response(&sales_axes(), cells)).unwrap_err();
    assert!(matches!(error,
        XmlaError::ParsingError(ref m) if m == "Invalid numeric value \"x1\": invalid digit found in string"));
}

#[test]
fn missing_cell_data_is_refused() {
    let xml = response(&sales_axes(), "").replace("<CellData></CellData>", "");
    let error = parse_execute_response(&xml).unwrap_err();
    assert!(matches!(error, XmlaError::ParsingError(ref m) if m == "CellData element expected in dataset"));
}

#[test]
fn missing_axes_is_refused() {
    let xml = response("", SALES_CELLS).replace("<Axes></Axes>", "");
    let error = parse_execute_response(&xml).unwrap_err();
    assert!(matches!(error, XmlaError::ParsingError(ref m) if m == "Axes element expected in dataset"));
}

#[test]
fn axis_without_tuples_is_refused() {
    let error = parse_execute_response(&response(r#"<Axis name="Axis0"/>"#, "")).unwrap_err();
    assert!(matches!(error, XmlaError::ParsingError(ref m) if m == "Tuples element expected in axis Axis0"));
}

#[test]
fn member_without_caption_is_refused() {
    let axes = r#"<Axis name="Axis0"><Tuples><Tuple><Member Hierarchy="h"><UName>u</UName></Member></Tuple></Tuples></Axis>"#;
    let error = parse_execute_response(&response(axes, "")).unwrap_err();
    assert!(matches!(error, XmlaError::ParsingError(ref m) if m == "No Caption found for member"));
}

#[test]
fn negative_level_number_is_read() {
    let axes = r#"<Axis name="Axis0"><Tuples><Tuple><Member Hierarchy="h"><UName>u</UName><Caption>c</Caption><LName>l</LName><LNum>-3</LNum><DisplayInfo>131072</DisplayInfo></Member></Tuple></Tuples></Axis>"#;
    let dataset = parse(&response(axes, ""));
    let m = &dataset.axes()[0].tuples()[0].members()[0];
    assert_eq!(m.level_number(), -3);
    assert_eq!(m.display_info(), 131072);
    assert_eq!(dataset.row_count(), 0);
    assert!(dataset.cell_at(0, 0).is_none());
}

#[test]
fn default_dataset_is_empty() {
    let dataset = XmlaDataset::default();
    assert_eq!(dataset.column_count(), 0);
    assert_eq!(dataset.row_count(), 0);
    assert!(dataset.cell(0).is_none());
}

#[test]
fn non_numeric_cell_value_is_refused() {
    let cells = r#"<Cell CellOrdinal="0"><Value>n/a</Value></Cell>"#;
    let error = parse_execute_response(&response(&sales_axes(), cells)).unwrap_err();
    assert!(matches!(error,
        XmlaError::ParsingError(ref m) if m == "Invalid numeric value \"n/a\": invalid float literal"));
}
