use crate::connection::error::{XmlaError, XmlaErrorView};
use crate::xml::writer::{end_tag, start_tag, write_end_tag, write_start_tag};
use crate::xmla::soap::{lemma_encode_append, ToXml};
use crate::xmla::values_map::{entries_view, entries_xml, spec_lookup, XmlaValueMap};
use vstd::prelude::*;
use vstd::utf8::encode_utf8;

verus! {

/// The text of a list of named values wrapped in two elements.
pub open spec fn list_xml(outer: Seq<char>, inner: Seq<char>, entries: Seq<(Seq<char>, Seq<char>)>) -> Seq<
    char,
> {
    start_tag(outer) + start_tag(inner) + entries_xml(entries) + end_tag(inner) + end_tag(outer)
}

/// Writes a list of named values wrapped in two elements.
pub fn write_list(out: &mut Vec<u8>, outer: &str, inner: &str, values: &XmlaValueMap) -> (r: Result<
    (),
    std::io::Error,
>)
    ensures
        r is Ok,
        r is Ok ==> final(out)@ == old(out)@ + encode_utf8(list_xml(outer@, inner@, values@)),
{
    write_start_tag(out, outer)?;
    let ghost t1 = start_tag(outer@);
    write_start_tag(out, inner)?;
    proof {
        lemma_encode_append(encode_utf8(t1), t1, start_tag(inner@));
    }
    let ghost t2 = t1 + start_tag(inner@);
    values.to_xml(out)?;
    proof {
        lemma_encode_append(encode_utf8(t2), t2, entries_xml(values@));
    }
    let ghost t3 = t2 + entries_xml(values@);
    write_end_tag(out, inner)?;
    proof {
        lemma_encode_append(encode_utf8(t3), t3, end_tag(inner@));
    }
    let ghost t4 = t3 + end_tag(inner@);
    write_end_tag(out, outer)?;
    proof {
        lemma_encode_append(encode_utf8(t4), t4, end_tag(outer@));
    }
    assert(final(out)@ =~= old(out)@ + encode_utf8(list_xml(outer@, inner@, values@)));
    Ok(())
}

/// The restrictions of an XMLA Discover request: named values that filter
/// the rows of the answer.
#[derive(Debug, Default, Clone)]
pub struct XmlaRestrictions {
    values: XmlaValueMap,
}

impl View for XmlaRestrictions {
    type V = Seq<(Seq<char>, Seq<char>)>;

    closed spec fn view(&self) -> Seq<(Seq<char>, Seq<char>)> {
        self.values@
    }
}

impl XmlaRestrictions {
    /// Name of the restriction on the catalog.
    pub const CATALOG_NAME: &'static str = "CATALOG_NAME";

    /// No restrictions.
    pub fn new() -> (r: XmlaRestrictions)
        ensures
            r@ == Seq::<(Seq<char>, Seq<char>)>::empty(),
    {
        XmlaRestrictions { values: XmlaValueMap::new() }
    }

    /// The same restrictions.
    pub fn duplicate(&self) -> (r: XmlaRestrictions)
        ensures
            r@ == self@,
    {
        XmlaRestrictions { values: self.values.duplicate() }
    }

    /// Adds a restriction; refused when the name is empty or already used.
    pub fn add(&mut self, key: String, value: String) -> (r: Result<(), XmlaError>)
        ensures
            key@.len() == 0 ==> (r matches Err(e) && e@ == XmlaErrorView::SerializationError(
                "Empty key"@,
            )) && final(self)@ == old(self)@,
            key@.len() > 0 && spec_lookup(old(self)@, key@) is Some ==> (r matches Err(e) && e@
                == XmlaErrorView::SerializationError("Duplicate key: "@ + key@)) && final(self)@
                == old(self)@,
            key@.len() > 0 && spec_lookup(old(self)@, key@) is None ==> r is Ok && final(self)@
                == old(self)@.push((key@, value@)),
    {
        self.values.add(key, value)
    }

    /// The value of the restriction named `key`, if any.
    pub fn get(&self, key: &str) -> (r: Option<&str>)
        ensures
            match r {
                Some(v) => spec_lookup(self@, key@) == Some(v@),
                None => spec_lookup(self@, key@) is None,
            },
    {
        self.values.get(key)
    }

    /// The restrictions, in the order they were added.
    pub fn entries(&self) -> (r: &[(String, String)])
        ensures
            entries_view(r@) == self@,
    {
        self.values.entries()
    }
}

impl ToXml for XmlaRestrictions {
    open spec fn xml_text(&self) -> Seq<char> {
        list_xml("Restrictions"@, "RestrictionList"@, self@)
    }

    fn to_xml(&self, out: &mut Vec<u8>) -> (r: Result<(), std::io::Error>) {
        write_list(out, "Restrictions", "RestrictionList", &self.values)
    }
}

} // verus!
