use crate::connection::error::{XmlaError, XmlaErrorView};
use crate::xml::tree::str_eq;
use crate::xmla::soap::{lemma_encode_append, text_element, write_text_element};
use vstd::prelude::*;
use vstd::string::StringExecFns;
use vstd::utf8::encode_utf8;

verus! {

/// The characters of each key and value, in order.
pub open spec fn entries_view(values: Seq<(String, String)>) -> Seq<(Seq<char>, Seq<char>)> {
    values.map_values(|p: (String, String)| (p.0@, p.1@))
}

/// The value of the first entry from index `i` on whose key is `key`.
pub open spec fn spec_lookup_from(entries: Seq<(Seq<char>, Seq<char>)>, key: Seq<char>, i: int) -> Option<
    Seq<char>,
>
    decreases entries.len() - i,
{
    if i < 0 || i >= entries.len() {
        None
    } else if entries[i].0 == key {
        Some(entries[i].1)
    } else {
        spec_lookup_from(entries, key, i + 1)
    }
}

/// The value stored under `key`.
pub open spec fn spec_lookup(entries: Seq<(Seq<char>, Seq<char>)>, key: Seq<char>) -> Option<Seq<char>> {
    spec_lookup_from(entries, key, 0)
}

/// The XML text of entries from index `i` on: one element per entry, named
/// by its key and holding its value.
pub open spec fn entries_xml(entries: Seq<(Seq<char>, Seq<char>)>) -> Seq<char>
    decreases entries.len(),
{
    if entries.len() == 0 {
        Seq::empty()
    } else {
        entries_xml(entries.drop_last()) + text_element(entries.last().0, entries.last().1)
    }
}

/// An ordered list of named values, each name at most once, that XMLA
/// writes as one element per name.
#[derive(Debug, Clone)]
pub struct XmlaValueMap {
    values: Vec<(String, String)>,
}

impl View for XmlaValueMap {
    type V = Seq<(Seq<char>, Seq<char>)>;

    closed spec fn view(&self) -> Seq<(Seq<char>, Seq<char>)> {
        entries_view(self.values@)
    }
}

impl Default for XmlaValueMap {
    fn default() -> (r: XmlaValueMap)
        ensures
            r@ == Seq::<(Seq<char>, Seq<char>)>::empty(),
    {
        let r = XmlaValueMap { values: Vec::new() };
        assert(r@ =~= Seq::<(Seq<char>, Seq<char>)>::empty());
        r
    }
}

/// A key that is not stored is found nowhere after any index either.
proof fn lemma_lookup_absent_push(
    entries: Seq<(Seq<char>, Seq<char>)>,
    key: Seq<char>,
    value: Seq<char>,
    other: Seq<char>,
    i: int,
)
    requires
        0 <= i <= entries.len(),
    ensures
        spec_lookup_from(entries, other, i) is Some ==> spec_lookup_from(
            entries.push((key, value)),
            other,
            i,
        ) == spec_lookup_from(entries, other, i),
        spec_lookup_from(entries, other, i) is None ==> spec_lookup_from(
            entries.push((key, value)),
            other,
            i,
        ) == (if other == key {
            Some(value)
        } else {
            None::<Seq<char>>
        }),
    decreases entries.len() - i,
{
    let pushed = entries.push((key, value));
    if i < entries.len() {
        assert(pushed[i] == entries[i]);
        lemma_lookup_absent_push(entries, key, value, other, i + 1);
    } else {
        assert(pushed[i] == (key, value));
        assert(spec_lookup_from(pushed, other, i + 1) is None);
    }
}

impl XmlaValueMap {
    /// An empty list.
    pub fn new() -> (r: XmlaValueMap)
        ensures
            r@ == Seq::<(Seq<char>, Seq<char>)>::empty(),
    {
        XmlaValueMap::default()
    }

    /// A list with the same entries.
    pub fn duplicate(&self) -> (r: XmlaValueMap)
        ensures
            r@ == self@,
    {
        let mut values: Vec<(String, String)> = Vec::new();
        let mut i: usize = 0;
        while i < self.values.len()
            invariant
                i <= self.values@.len(),
                values@.len() == i,
                forall|j: int|
                    0 <= j < i ==> #[trigger] values@[j].0@ == self.values@[j].0@ && values@[j].1@
                        == self.values@[j].1@,
            decreases self.values@.len() - i,
        {
            let k = self.values[i].0.clone();
            let v = self.values[i].1.clone();
            values.push((k, v));
            i = i + 1;
        }
        assert(entries_view(values@) =~= entries_view(self.values@));
        XmlaValueMap { values }
    }

    /// The value stored under `key`, if any.
    pub fn get(&self, key: &str) -> (r: Option<&str>)
        ensures
            match r {
                Some(v) => spec_lookup(self@, key@) == Some(v@),
                None => spec_lookup(self@, key@) is None,
            },
    {
        let mut i: usize = 0;
        while i < self.values.len()
            invariant
                i <= self.values@.len(),
                spec_lookup(self@, key@) == spec_lookup_from(self@, key@, i as int),
            decreases self.values@.len() - i,
        {
            if str_eq(self.values[i].0.as_str(), key) {
                return Some(self.values[i].1.as_str());
            }
            i = i + 1;
        }
        None
    }

    /// Stores `value` under `key`. Refused with a serialization error when
    /// the key is empty, as no element can be named by it, or already
    /// stored.
    pub fn add(&mut self, key: String, value: String) -> (r: Result<(), XmlaError>)
        ensures
            key@.len() == 0 ==> (r matches Err(e) && e@ == XmlaErrorView::SerializationError(
                "Empty key"@,
            )) && final(self)@ == old(self)@,
            key@.len() > 0 && spec_lookup(old(self)@, key@) is Some ==> (r matches Err(e) && e@
                == XmlaErrorView::SerializationError("Duplicate key: "@ + key@)) && final(self)@
                == old(self)@,
            key@.len() > 0 && spec_lookup(old(self)@, key@) is None ==> r is Ok && final(self)@
                == old(self)@.push((key@, value@)),
    {
        if key.as_str().is_empty() {
            return Err(XmlaError::SerializationError(String::from_str("Empty key")));
        }
        if self.get(key.as_str()).is_some() {
            let mut message = String::from_str("Duplicate key: ");
            message.append(key.as_str());
            return Err(XmlaError::SerializationError(message));
        }
        self.values.push((key, value));
        assert(self@ =~= old(self)@.push((key@, value@)));
        Ok(())
    }

    /// The entries, in the order they were added.
    pub fn entries(&self) -> (r: &[(String, String)])
        ensures
            entries_view(r@) == self@,
    {
        self.values.as_slice()
    }

    /// Appends one element per entry, named by its key and holding its
    /// value.
    pub fn to_xml(&self, out: &mut Vec<u8>) -> (r: Result<(), std::io::Error>)
        ensures
            r is Ok,
            r is Ok ==> final(out)@ == old(out)@ + encode_utf8(entries_xml(self@)),
    {
        let mut i: usize = 0;
        assert(entries_xml(self@.take(0)) =~= Seq::<char>::empty());
        assert(old(out)@ =~= old(out)@ + encode_utf8(Seq::<char>::empty()));
        while i < self.values.len()
            invariant
                i <= self.values@.len(),
                self@.len() == self.values@.len(),
                out@ == old(out)@ + encode_utf8(entries_xml(self@.take(i as int))),
            decreases self.values@.len() - i,
        {
            let ghost before = out@;
            write_text_element(out, self.values[i].0.as_str(), self.values[i].1.as_str())?;
            proof {
                let t = entries_xml(self@.take(i as int));
                let p = text_element(self@[i as int].0, self@[i as int].1);
                lemma_encode_append(encode_utf8(t), t, p);
                assert(self@.take(i + 1).drop_last() =~= self@.take(i as int));
                assert(out@ =~= old(out)@ + (encode_utf8(t) + encode_utf8(p)));
            }
            i = i + 1;
        }
        assert(self@.take(i as int) =~= self@);
        Ok(())
    }
}

/// After storing a value under a new key, reading the key gives the value
/// back, and every other key reads as before.
pub proof fn lemma_add_then_lookup(
    entries: Seq<(Seq<char>, Seq<char>)>,
    key: Seq<char>,
    value: Seq<char>,
    other: Seq<char>,
)
    requires
        spec_lookup(entries, key) is None,
    ensures
        spec_lookup(entries.push((key, value)), key) == Some(value),
        other != key ==> spec_lookup(entries.push((key, value)), other) == spec_lookup(entries, other),
{
    lemma_lookup_absent_push(entries, key, value, key, 0);
    lemma_lookup_absent_push(entries, key, value, other, 0);
}

} // verus!
