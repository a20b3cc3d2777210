use xmla_ssas_rs::xmla::auth::Authenticate;
use xmla_ssas_rs::xmla::discover::XmlaDiscover;
use xmla_ssas_rs::xmla::execute::XmlaExecute;
use xmla_ssas_rs::xmla::props::XmlaProperties;
use xmla_ssas_rs::xmla::restrictions::XmlaRestrictions;
use xmla_ssas_rs::xmla::soap::{ToSoap, XmlaOperationContent};
use xmla_ssas_rs::connection::error::XmlaError;

const ENVELOPE_START: &str =
    r#"<soap:Envelope xmlns:soap="http://schemas.xmlsoap.org/soap/envelope/"><soap:Body>"#;
const ENVELOPE_END: &str = "</soap:Body></soap:Envelope>";

fn soap_text(request: &impl ToSoap) -> String {
    String::from_utf8(request.to_soap().unwrap()).unwrap()
}

#[test]
fn discover_request_soap() {
    let mut discover = XmlaDiscover::new(String::from("DBSCHEMA_CATALOGS"));
    discover
        .restrictions
        .add(String::from(XmlaRestrictions::CATALOG_NAME), String::from("Adventure Works"))
        .unwrap();
    discover
        .properties
        .add(
            String::from(XmlaProperties::CONTENT),
            String::from(XmlaOperationContent::Data.as_str()),
        )
        .unwrap();
    let expected = format!(
        "{}{}{}",
        ENVELOPE_START,
        r#"<Discover xmlns="urn:schemas-microsoft-com:xml-analysis"><RequestType>DBSCHEMA_CATALOGS</RequestType><Restrictions><RestrictionList><CATALOG_NAME>Adventure Works</CATALOG_NAME></RestrictionList></Restrictions><Properties><PropertyList><Content>Data</Content></PropertyList></Properties></Discover>"#,
        ENVELOPE_END
    );
    assert_eq!(soap_text(&discover), expected);
}

#[test]
fn execute_request_soap_escapes_the_statement() {
    let execute = XmlaExecute::new(
        String::from("SELECT [a] ON 0 FROM [b] WHERE x < 1 & y > 2"),
        String::from("AW"),
    )
    .unwrap();
    let expected = format!(
        "{}{}{}",
        ENVELOPE_START,
        r#"<Execute xmlns="urn:schemas-microsoft-com:xml-analysis"><Command><Statement>SELECT [a] ON 0 FROM [b] WHERE x &lt; 1 &amp; y &gt; 2</Statement></Command><Properties><PropertyList><Catalog>AW</Catalog></PropertyList></Properties></Execute>"#,
        ENVELOPE_END
    );
    assert_eq!(soap_text(&execute), expected);
    assert_eq!(execute.properties.get("Catalog"), Some("AW"));
}

#[test]
fn authenticate_request_soap() {
    let request = Authenticate {
        sspi_handshake: String::from("TlRMTVNTUAAB"),
    };
    let expected = format!(
        "{}{}{}",
        ENVELOPE_START,
        r#"<Authenticate xmlns="http://schemas.microsoft.com/analysisservices/2003/ext"><SspiHandshake>TlRMTVNTUAAB</SspiHandshake></Authenticate>"#,
        ENVELOPE_END
    );
    assert_eq!(soap_text(&request), expected);
}

#[test]
fn restrictions_keep_order_and_refuse_duplicates() {
    let mut restrictions = XmlaRestrictions::default();
    restrictions.add(String::from("CATALOG_NAME"), String::from("a")).unwrap();
    restrictions.add(String::from("CUBE_NAME"), String::from("b")).unwrap();
    assert_eq!(restrictions.get("CUBE_NAME"), Some("b"));
    assert_eq!(restrictions.get("MISSING"), None);
    let error = restrictions
        .add(String::from("CATALOG_NAME"), String::from("c"))
        .unwrap_err();
    assert!(matches!(error, XmlaError::SerializationError(ref m) if m == "Duplicate key: CATALOG_NAME"));
    let error = restrictions.add(String::new(), String::from("c")).unwrap_err();
    assert!(matches!(error, XmlaError::SerializationError(ref m) if m == "Empty key"));
    let entries: Vec<(&str, &str)> = restrictions
        .entries()
        .iter()
        .map(|(k, v)| (k.as_str(), v.as_str()))
        .collect();
    assert_eq!(entries, vec![("CATALOG_NAME", "a"), ("CUBE_NAME", "b")]);
}

#[test]
fn properties_add_then_get() {
    let mut properties = XmlaProperties::new();
    properties.add(String::from(XmlaProperties::CATALOG), String::from("AW")).unwrap();
    assert_eq!(properties.get(XmlaProperties::CATALOG), Some("AW"));
    assert_eq!(properties.entries().len(), 1);
}

#[test]
fn operation_content_names() {
    assert_eq!(XmlaOperationContent::ValidateOnly.as_str(), "None");
    assert_eq!(XmlaOperationContent::Schema.as_str(), "Schema");
    assert_eq!(XmlaOperationContent::Data.as_str(), "Data");
    assert_eq!(XmlaOperationContent::SchemaData.as_str(), "SchemaData");
    assert_eq!(XmlaOperationContent::Metadata.as_str(), "Metadata");
}

#[test]
fn discover_new_is_empty() {
    let discover = XmlaDiscover::new(String::from("MDSCHEMA_CUBES"));
    assert_eq!(discover.request_type, "MDSCHEMA_CUBES");
    assert!(discover.restrictions.entries().is_empty());
    assert!(discover.properties.entries().is_empty());
}
