use crate::connection::error::{XmlaError, XmlaErrorView};
use crate::xmla::restrictions::{list_xml, write_list};
use crate::xmla::soap::ToXml;
use crate::xmla::values_map::{entries_view, spec_lookup, XmlaValueMap};
use vstd::prelude::*;

verus! {

/// The properties of an XMLA request, written as a PropertyList.
#[derive(Debug, Default, Clone)]
pub struct XmlaProperties {
    values: XmlaValueMap,
}

impl View for XmlaProperties {
    type V = Seq<(Seq<char>, Seq<char>)>;

    closed spec fn view(&self) -> Seq<(Seq<char>, Seq<char>)> {
        self.values@
    }
}

impl XmlaProperties {
    /// The Content property: what the response carries.
    pub const CONTENT: &'static str = "Content";

    /// The Catalog property: the database that a command runs against.
    pub const CATALOG: &'static str = "Catalog";

    /// No properties.
    pub fn new() -> (r: XmlaProperties)
        ensures
            r@ == Seq::<(Seq<char>, Seq<char>)>::empty(),
    {
        XmlaProperties { values: XmlaValueMap::new() }
    }

    /// Sets a property; refused when the name is empty or already set.
    pub fn add(&mut self, key: String, value: String) -> (r: Result<(), XmlaError>)
        ensures
            key@.len() == 0 ==> (r matches Err(e) && e@ == XmlaErrorView::SerializationError(
                "Empty key"@,
            )) && final(self)@ == old(self)@,
            key@.len() > 0 && spec_lookup(old(self)@, key@) is Some ==> (r matches Err(e) && e@
                == XmlaErrorView::SerializationError("Duplicate key: "@ + key@)) && final(self)@
                == old(self)@,
            key@.len() > 0 && spec_lookup(old(self)@, key@) is None ==> r is Ok && final(self)@
                == old(self)@.push((key@, value@)),
    {
        self.values.add(key, value)
    }

    /// The value of the property named `key`, if set.
    pub fn get(&self, key: &str) -> (r: Option<&str>)
        ensures
            match r {
                Some(v) => spec_lookup(self@, key@) == Some(v@),
                None => spec_lookup(self@, key@) is None,
            },
    {
        self.values.get(key)
    }

    /// The properties, in the order they were set.
    pub fn entries(&self) -> (r: &[(String, String)])
        ensures
            entries_view(r@) == self@,
    {
        self.values.entries()
    }
}

impl ToXml for XmlaProperties {
    open spec fn xml_text(&self) -> Seq<char> {
        list_xml("Properties"@, "PropertyList"@, self@)
    }

    fn to_xml(&self, out: &mut Vec<u8>) -> (r: Result<(), std::io::Error>) {
        write_list(out, "Properties", "PropertyList", &self.values)
    }
}

} // verus!
