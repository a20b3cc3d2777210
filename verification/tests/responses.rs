use xmla_ssas_rs::connection::exchange::response_document;
use xmla_ssas_rs::xmla::responses::{parse_discover_response, XmlaDiscoverResponse};

const TEST_XML: &str = r#"<DiscoverResponse xmlns="urn:schemas-microsoft-com:xml-analysis">
        <return>
            <root xmlns="urn:schemas-microsoft-com:xml-analysis:rowset"
                  xmlns:xsi="http://www.w3.org/2001/XMLSchema-instance" xmlns:xsd="http://www.w3.org/2001/XMLSchema"
                  xmlns:msxmla="http://schemas.microsoft.com/analysisservices/2003/xmla">
                <row>
                    <CATALOG_NAME>my_catalog</CATALOG_NAME>
                    <DESCRIPTION/>
                </row>
            </root>
        </return>
    </DiscoverResponse>"#;

#[test]
fn test_parse_single_row() -> Result<(), Box<dyn std::error::Error>> {
    let document = response_document(TEST_XML.as_bytes()).map_err(|e| format!("{:?}", e))?;
    let response = XmlaDiscoverResponse::from_xml(&document).map_err(|e| format!("{:?}", e))?;
    assert_eq!(response.rows().len(), 1);
    let first_row = response.rows().first();
    assert!(first_row.is_some());
    let catalog_name = first_row.unwrap().get("CATALOG_NAME");
    assert!(catalog_name.is_some());
    assert_eq!("my_catalog", catalog_name.unwrap().as_str());
    let description = first_row.unwrap().get("DESCRIPTION");
    assert!(description.is_some());
    assert_eq!("", description.unwrap().as_str());
    Ok(())
}

#[test]
fn discover_response_in_a_soap_envelope() {
    let xml = format!(
        r#"<soap:Envelope xmlns:soap="http://schemas.xmlsoap.org/soap/envelope/"><soap:Body>{}</soap:Body></soap:Envelope>"#,
        TEST_XML
    );
    let response = parse_discover_response(&xml).unwrap();
    assert_eq!(response.rows().len(), 1);
    assert_eq!(response.rows()[0].get("CATALOG_NAME").unwrap(), "my_catalog");
}

#[test]
fn soap_fault_is_a_protocol_error() {
    let xml = r#"<soap:Envelope xmlns:soap="http://schemas.xmlsoap.org/soap/envelope/"><soap:Body>
        <soap:Fault><faultcode>XMLAnalysisError.0xc10f000a</faultcode><faultstring>The request is empty.</faultstring></soap:Fault>
        </soap:Body></soap:Envelope>"#;
    let error = parse_discover_response(xml).unwrap_err();
    match error {
        xmla_ssas_rs::connection::error::XmlaError::ProtocolError(message) => {
            assert_eq!(message, "XMLAnalysisError.0xc10f000a: The request is empty.");
        },
        other => panic!("unexpected error {:?}", other),
    }
}

#[test]
fn wrong_root_element_is_a_parsing_error() {
    let document =
        response_document(br#"<ExecuteResponse xmlns="urn:schemas-microsoft-com:xml-analysis"/>"#)
            .unwrap();
    let error = XmlaDiscoverResponse::from_xml(&document).unwrap_err();
    assert!(matches!(error, xmla_ssas_rs::connection::error::XmlaError::ParsingError(_)));
}

#[test]
fn malformed_xml_is_an_xml_error() {
    let error = parse_discover_response("<soap:Envelope").unwrap_err();
    assert!(matches!(error, xmla_ssas_rs::connection::error::XmlaError::Xml(_)));
}
