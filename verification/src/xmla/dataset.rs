use crate::connection::error::{XmlaError, XmlaErrorView};
use crate::text::{
    check_float, float_failure_text, spec_check_float, prefixed_decimal, int_failure_text, parse_i32, parse_u32, spec_decimal, spec_parse_i32,
    spec_parse_u32,
};
use crate::xml::parse::{parse_xml, xml_document};
use crate::xml::tree::{
    element_children, lemma_find_child_found, named_children, spec_attribute,
    spec_find_child_from, spec_text, XmlElement, XmlNode,
};
use crate::xmla::discover::XMLA_NS;
use crate::xmla::responses::{
    check_tag_name, get_first_element_child, spec_check_tag_name, spec_first_element_child,
};
use crate::xmla::soap::{get_body_child, spec_get_body_child};
use std::collections::HashMap;
use vstd::prelude::*;
use vstd::string::StringExecFns;

verus! {

broadcast use vstd::std_specs::hash::group_hash_axioms;

/// Namespace of the multidimensional dataset in an Execute response.
pub const XMLA_DATASET_NS: &'static str = "urn:schemas-microsoft-com:xml-analysis:mddataset";

/// A member of a tuple on an axis.
#[derive(Debug)]
pub struct XmlaMember {
    hierarchy: String,
    unique_name: String,
    caption: String,
    level_name: String,
    level_number: i32,
    display_info: u32,
}

/// The content of an [`XmlaMember`].
pub ghost struct MemberView {
    pub hierarchy: Seq<char>,
    pub unique_name: Seq<char>,
    pub caption: Seq<char>,
    pub level_name: Seq<char>,
    pub level_number: i32,
    pub display_info: u32,
}

impl View for XmlaMember {
    type V = MemberView;

    closed spec fn view(&self) -> MemberView {
        MemberView {
            hierarchy: self.hierarchy@,
            unique_name: self.unique_name@,
            caption: self.caption@,
            level_name: self.level_name@,
            level_number: self.level_number,
            display_info: self.display_info,
        }
    }
}

/// A tuple on an axis: one member per hierarchy.
#[derive(Debug)]
pub struct XmlaTuple {
    members: Vec<XmlaMember>,
}

impl View for XmlaTuple {
    type V = Seq<MemberView>;

    closed spec fn view(&self) -> Seq<MemberView> {
        self.members@.map_values(|m: XmlaMember| m@)
    }
}

/// An axis of a dataset: its name and its tuples.
#[derive(Debug)]
pub struct XmlaAxis {
    name: String,
    tuples: Vec<XmlaTuple>,
}

/// The content of an [`XmlaAxis`].
pub ghost struct AxisView {
    pub name: Seq<char>,
    pub tuples: Seq<Seq<MemberView>>,
}

impl View for XmlaAxis {
    type V = AxisView;

    closed spec fn view(&self) -> AxisView {
        AxisView { name: self.name@, tuples: self.tuples@.map_values(|t: XmlaTuple| t@) }
    }
}

/// A cell of a dataset: its ordinal, the text of its value, and its
/// formatted value.
///
/// The value is kept as the text that the response holds, which reading the
/// cell has checked to be a number literal; turning it into a
/// floating-point number is left to the caller.
#[derive(Debug, Clone)]
pub struct XmlaCell {
    ordinal: u32,
    value: Option<String>,
    formatted_value: String,
}

/// The content of an [`XmlaCell`].
pub ghost struct CellView {
    pub ordinal: u32,
    pub value: Option<Seq<char>>,
    pub formatted_value: Seq<char>,
}

impl View for XmlaCell {
    type V = CellView;

    closed spec fn view(&self) -> CellView {
        CellView {
            ordinal: self.ordinal,
            value: match self.value {
                Some(v) => Some(v@),
                None => None,
            },
            formatted_value: self.formatted_value@,
        }
    }
}

/// Applying a reading to each element in order: the results, or the error
/// of the first element that fails.
pub open spec fn collect_all<T>(
    elems: Seq<XmlElement>,
    f: spec_fn(XmlElement) -> Result<T, XmlaErrorView>,
) -> Result<Seq<T>, XmlaErrorView>
    decreases elems.len(),
{
    if elems.len() == 0 {
        Ok(Seq::empty())
    } else {
        match collect_all(elems.drop_last(), f) {
            Err(e) => Err(e),
            Ok(v) => match f(elems.last()) {
                Err(e) => Err(e),
                Ok(x) => Ok(v.push(x)),
            },
        }
    }
}

/// The text of the first child `{ns}name` of a member element.
pub open spec fn spec_string_child(node: XmlElement, ns: Seq<char>, name: Seq<char>) -> Result<
    Seq<char>,
    XmlaErrorView,
> {
    match spec_find_child_from(node.children@, Some(ns), Some(name), 0) {
        None => Err(XmlaErrorView::ParsingError("No "@ + name + " found for member"@)),
        Some(i) => match spec_text(node.children@[i]->Element_0) {
            None => Err(XmlaErrorView::ParsingError("Empty "@ + name + " in member"@)),
            Some(t) => Ok(t),
        },
    }
}

/// The text of the first child `{ns}name`, if there is one with text.
pub open spec fn spec_optional_string_child(node: XmlElement, ns: Seq<char>, name: Seq<char>) -> Option<
    Seq<char>,
> {
    match spec_find_child_from(node.children@, Some(ns), Some(name), 0) {
        None => None,
        Some(i) => spec_text(node.children@[i]->Element_0),
    }
}

/// The message for a text that is not a number of the expected type, with
/// the text of the parse failure.
pub open spec fn numeric_message(text: Seq<char>, failure: Seq<char>) -> Seq<char> {
    "Invalid numeric value \""@ + text + "\": "@ + failure
}

/// Reading a Member element.
pub open spec fn spec_member(node: XmlElement) -> Result<MemberView, XmlaErrorView> {
    match spec_check_tag_name(node, XMLA_DATASET_NS@, "Member"@) {
        Err(e) => Err(e),
        Ok(_) => match spec_attribute(node, "Hierarchy"@) {
            None => Err(XmlaErrorView::ParsingError("Expected Hierarchy attribute in member"@)),
            Some(hierarchy) => match spec_string_child(node, XMLA_DATASET_NS@, "UName"@) {
                Err(e) => Err(e),
                Ok(unique_name) => match spec_string_child(node, XMLA_DATASET_NS@, "Caption"@) {
                    Err(e) => Err(e),
                    Ok(caption) => match spec_string_child(node, XMLA_DATASET_NS@, "LName"@) {
                        Err(e) => Err(e),
                        Ok(level_name) => match spec_string_child(node, XMLA_DATASET_NS@, "LNum"@) {
                            Err(e) => Err(e),
                            Ok(lnum) => match spec_parse_i32(lnum) {
                                Err(f) => Err(XmlaErrorView::ParsingError(numeric_message(lnum, int_failure_text(f)))),
                                Ok(level_number) => match spec_string_child(
                                    node,
                                    XMLA_DATASET_NS@,
                                    "DisplayInfo"@,
                                ) {
                                    Err(e) => Err(e),
                                    Ok(dinfo) => match spec_parse_u32(dinfo) {
                                        Err(f) => Err(
                                            XmlaErrorView::ParsingError(numeric_message(dinfo, int_failure_text(f))),
                                        ),
                                        Ok(display_info) => Ok(
                                            MemberView {
                                                hierarchy,
                                                unique_name,
                                                caption,
                                                level_name,
                                                level_number,
                                                display_info,
                                            },
                                        ),
                                    },
                                },
                            },
                        },
                    },
                },
            },
        },
    }
}

/// Reading a Tuple element: one member per child element.
pub open spec fn spec_tuple(node: XmlElement) -> Result<Seq<MemberView>, XmlaErrorView> {
    match spec_check_tag_name(node, XMLA_DATASET_NS@, "Tuple"@) {
        Err(e) => Err(e),
        Ok(_) => collect_members(element_children(node.children@)),
    }
}

/// Reading an Axis element: its name and one tuple per child element of its
/// Tuples element.
pub open spec fn spec_axis(node: XmlElement) -> Result<AxisView, XmlaErrorView> {
    match spec_check_tag_name(node, XMLA_DATASET_NS@, "Axis"@) {
        Err(e) => Err(e),
        Ok(_) => match spec_attribute(node, "name"@) {
            None => Err(XmlaErrorView::ParsingError("Expected name attribute in axis"@)),
            Some(name) => match spec_find_child_from(
                node.children@,
                Some(XMLA_DATASET_NS@),
                Some("Tuples"@),
                0,
            ) {
                None => Err(
                    XmlaErrorView::ParsingError("Tuples element expected in axis "@ + name),
                ),
                Some(i) => match collect_tuples(
                    element_children(node.children@[i]->Element_0.children@),
                ) {
                    Err(e) => Err(e),
                    Ok(tuples) => Ok(AxisView { name, tuples }),
                },
            },
        },
    }
}

/// A cell's value, when it has one, must read as a number.
pub open spec fn spec_value_check(value: Option<Seq<char>>) -> Result<(), XmlaErrorView> {
    match value {
        None => Ok(()),
        Some(t) => match spec_check_float(t) {
            Ok(_) => Ok(()),
            Err(f) => Err(XmlaErrorView::ParsingError(numeric_message(t, float_failure_text(f)))),
        },
    }
}

/// Reading a Cell element.
pub open spec fn spec_cell(node: XmlElement) -> Result<CellView, XmlaErrorView> {
    match spec_check_tag_name(node, XMLA_DATASET_NS@, "Cell"@) {
        Err(e) => Err(e),
        Ok(_) => match spec_attribute(node, "CellOrdinal"@) {
            None => Err(XmlaErrorView::ParsingError("Expected CellOrdinal attribute in cell"@)),
            Some(o) => match spec_parse_u32(o) {
                Err(f) => Err(XmlaErrorView::ParsingError(numeric_message(o, int_failure_text(f)))),
                Ok(ordinal) => match spec_value_check(
                    spec_optional_string_child(node, XMLA_DATASET_NS@, "Value"@),
                ) {
                    Err(e) => Err(e),
                    Ok(_) => Ok(
                        CellView {
                            ordinal,
                            value: spec_optional_string_child(node, XMLA_DATASET_NS@, "Value"@),
                            formatted_value: match spec_optional_string_child(
                                node,
                                XMLA_DATASET_NS@,
                                "FmtValue"@,
                            ) {
                                Some(t) => t,
                                None => Seq::empty(),
                            },
                        },
                    ),
                },
            },
        },
    }
}

/// Reading each Member element in order.
pub open spec fn collect_members(elems: Seq<XmlElement>) -> Result<Seq<MemberView>, XmlaErrorView> {
    collect_all(elems, |m: XmlElement| spec_member(m))
}

/// Reading each Tuple element in order.
pub open spec fn collect_tuples(elems: Seq<XmlElement>) -> Result<Seq<Seq<MemberView>>, XmlaErrorView> {
    collect_all(elems, |t: XmlElement| spec_tuple(t))
}

/// Reading each Axis element in order.
pub open spec fn collect_axes(elems: Seq<XmlElement>) -> Result<Seq<AxisView>, XmlaErrorView> {
    collect_all(elems, |a: XmlElement| spec_axis(a))
}

/// Reading each Cell element in order.
pub open spec fn collect_cells(elems: Seq<XmlElement>) -> Result<Seq<CellView>, XmlaErrorView> {
    collect_all(elems, |c: XmlElement| spec_cell(c))
}

/// Reading each element in order gives one result per element, each the
/// reading of its element, and it succeeds whenever every element reads.
pub proof fn lemma_collect_all_each<T>(
    elems: Seq<XmlElement>,
    f: spec_fn(XmlElement) -> Result<T, XmlaErrorView>,
)
    ensures
        collect_all(elems, f) matches Ok(v) ==> v.len() == elems.len() && forall|i: int|
            0 <= i < elems.len() ==> f(#[trigger] elems[i]) == Ok::<T, XmlaErrorView>(v[i]),
        (forall|i: int| 0 <= i < elems.len() ==> (#[trigger] f(elems[i])) is Ok) ==> collect_all(
            elems,
            f,
        ) is Ok,
    decreases elems.len(),
{
    if elems.len() > 0 {
        let init = elems.drop_last();
        lemma_collect_all_each(init, f);
        assert forall|i: int| 0 <= i < init.len() implies #[trigger] init[i] == elems[i] by {}
        if forall|i: int| 0 <= i < elems.len() ==> (#[trigger] f(elems[i])) is Ok {
            assert forall|i: int| 0 <= i < init.len() implies (#[trigger] f(init[i])) is Ok by {
                assert(f(elems[i]) is Ok);
            }
            assert(f(elems[elems.len() - 1]) is Ok);
        }
        match collect_all(elems, f) {
            Ok(v) => {
                let w = collect_all(init, f)->Ok_0;
                assert(v == w.push(f(elems.last())->Ok_0));
                assert forall|i: int| 0 <= i < elems.len() implies f(#[trigger] elems[i]) == Ok::<
                    T,
                    XmlaErrorView,
                >(v[i]) by {
                    if i < init.len() {
                        assert(f(init[i]) == Ok::<T, XmlaErrorView>(w[i]));
                    }
                }
            },
            Err(_) => {},
        }
    }
}

/// A tuple holds one member per child element of its Tuple element, in
/// order, each read from its element; and a Tuple element whose child
/// elements all read as members is read.
pub proof fn lemma_tuple_one_member_per_child(node: XmlElement)
    ensures
        spec_tuple(node) matches Ok(ms) ==> ms.len() == element_children(node.children@).len()
            && forall|i: int|
            0 <= i < ms.len() ==> spec_member(#[trigger] element_children(node.children@)[i])
                == Ok::<MemberView, XmlaErrorView>(ms[i]),
        spec_check_tag_name(node, XMLA_DATASET_NS@, "Tuple"@) is Ok && (forall|i: int|
            0 <= i < element_children(node.children@).len() ==> (#[trigger] spec_member(
                element_children(node.children@)[i],
            )) is Ok) ==> spec_tuple(node) is Ok,
{
    let ec = element_children(node.children@);
    let f = |m: XmlElement| spec_member(m);
    lemma_collect_all_each(ec, f);
    assert forall|i: int| 0 <= i < ec.len() implies #[trigger] f(ec[i]) == spec_member(ec[i]) by {}
}

/// Once the child elements of a prefix of the children fail to read, so do
/// those of every longer prefix, with the same error.
pub proof fn lemma_collect_children_error<T>(
    cs: Seq<XmlNode>,
    f: spec_fn(XmlElement) -> Result<T, XmlaErrorView>,
    i: int,
    j: int,
)
    requires
        0 <= i <= j <= cs.len(),
        collect_all(element_children(cs.take(i)), f) is Err,
    ensures
        collect_all(element_children(cs.take(j)), f) == collect_all(element_children(cs.take(i)), f),
    decreases j - i,
{
    if j > i {
        lemma_collect_children_error(cs, f, i, j - 1);
        assert(cs.take(j).drop_last() =~= cs.take(j - 1));
        let prev = element_children(cs.take(j - 1));
        if cs.take(j).last() is Element {
            assert(element_children(cs.take(j)) =~= prev.push(cs.take(j).last()->Element_0));
            assert(element_children(cs.take(j)).drop_last() =~= prev);
        } else {
            assert(element_children(cs.take(j)) =~= prev);
        }
    }
}

/// The same for the child elements with a given name.
pub proof fn lemma_collect_named_error<T>(
    cs: Seq<XmlNode>,
    ns: Seq<char>,
    name: Seq<char>,
    f: spec_fn(XmlElement) -> Result<T, XmlaErrorView>,
    i: int,
    j: int,
)
    requires
        0 <= i <= j <= cs.len(),
        collect_all(named_children(cs.take(i), ns, name), f) is Err,
    ensures
        collect_all(named_children(cs.take(j), ns, name), f) == collect_all(
            named_children(cs.take(i), ns, name),
            f,
        ),
    decreases j - i,
{
    if j > i {
        lemma_collect_named_error(cs, ns, name, f, i, j - 1);
        assert(cs.take(j).drop_last() =~= cs.take(j - 1));
        let prev = named_children(cs.take(j - 1), ns, name);
        let n = named_children(cs.take(j), ns, name);
        if n.len() > prev.len() {
            assert(n =~= prev.push(cs.take(j).last()->Element_0));
            assert(n.drop_last() =~= prev);
        } else {
            assert(n =~= prev);
        }
    }
}

/// The error for a text that is not a number of the expected type.
fn numeric_error(text: &str, failure: &str) -> (r: XmlaError)
    ensures
        r@ == XmlaErrorView::ParsingError(numeric_message(text@, failure@)),
{
    let mut message = String::from_str("Invalid numeric value \"");
    message.append(text);
    message.append("\": ");
    message.append(failure);
    XmlaError::ParsingError(message)
}

/// The text of the first child `{ns}name` of a member element.
fn string_child(node: &XmlElement, ns: &str, name: &str) -> (r: Result<String, XmlaError>)
    ensures
        match spec_string_child(*node, ns@, name@) {
            Ok(t) => r matches Ok(x) && x@ == t,
            Err(e) => r matches Err(x) && x@ == e,
        },
{
    proof {
        lemma_find_child_found(node.children@, Some(ns@), Some(name@), 0);
    }
    let child = match node.find_child(Some(ns), Some(name)) {
        Some(c) => c,
        None => {
            let mut message = String::from_str("No ");
            message.append(name);
            message.append(" found for member");
            return Err(XmlaError::ParsingError(message));
        },
    };
    match child.text() {
        Some(t) => Ok(t.clone()),
        None => {
            let mut message = String::from_str("Empty ");
            message.append(name);
            message.append(" in member");
            Err(XmlaError::ParsingError(message))
        },
    }
}

/// The text of the first child `{ns}name`, if there is one with text.
fn optional_string_child(node: &XmlElement, ns: &str, name: &str) -> (r: Option<String>)
    ensures
        match spec_optional_string_child(*node, ns@, name@) {
            Some(t) => r matches Some(x) && x@ == t,
            None => r is None,
        },
{
    proof {
        lemma_find_child_found(node.children@, Some(ns@), Some(name@), 0);
    }
    match node.find_child(Some(ns), Some(name)) {
        Some(c) => match c.text() {
            Some(t) => Some(t.clone()),
            None => None,
        },
        None => None,
    }
}

impl XmlaMember {
    /// Reads a Member element: its Hierarchy attribute and its UName,
    /// Caption, LName, LNum and DisplayInfo children.
    pub fn from_xml(node: &XmlElement) -> (r: Result<XmlaMember, XmlaError>)
        ensures
            match spec_member(*node) {
                Ok(m) => r matches Ok(x) && x@ == m,
                Err(e) => r matches Err(x) && x@ == e,
            },
    {
        check_tag_name(node, XMLA_DATASET_NS, "Member")?;
        let hierarchy = match node.attribute("Hierarchy") {
            Some(h) => h.clone(),
            None => {
                return Err(
                    XmlaError::ParsingError(
                        String::from_str("Expected Hierarchy attribute in member"),
                    ),
                );
            },
        };
        let unique_name = string_child(node, XMLA_DATASET_NS, "UName")?;
        let caption = string_child(node, XMLA_DATASET_NS, "Caption")?;
        let level_name = string_child(node, XMLA_DATASET_NS, "LName")?;
        let level_number_text = string_child(node, XMLA_DATASET_NS, "LNum")?;
        let level_number = match parse_i32(level_number_text.as_str()) {
            Ok(v) => v,
            Err(f) => {
                return Err(numeric_error(level_number_text.as_str(), f.as_str()));
            },
        };
        let display_info_text = string_child(node, XMLA_DATASET_NS, "DisplayInfo")?;
        let display_info = match parse_u32(display_info_text.as_str()) {
            Ok(v) => v,
            Err(f) => {
                return Err(numeric_error(display_info_text.as_str(), f.as_str()));
            },
        };
        Ok(XmlaMember { hierarchy, unique_name, caption, level_name, level_number, display_info })
    }

    /// The member's hierarchy.
    pub fn hierarchy(&self) -> (r: &str)
        ensures
            r@ == self@.hierarchy,
    {
        self.hierarchy.as_str()
    }

    /// The member's unique name.
    pub fn unique_name(&self) -> (r: &str)
        ensures
            r@ == self@.unique_name,
    {
        self.unique_name.as_str()
    }

    /// The member's caption.
    pub fn caption(&self) -> (r: &str)
        ensures
            r@ == self@.caption,
    {
        self.caption.as_str()
    }

    /// The name of the member's level.
    pub fn level_name(&self) -> (r: &str)
        ensures
            r@ == self@.level_name,
    {
        self.level_name.as_str()
    }

    /// The number of the member's level.
    pub fn level_number(&self) -> (r: i32)
        ensures
            r == self@.level_number,
    {
        self.level_number
    }

    /// The member's display information flags.
    pub fn display_info(&self) -> (r: u32)
        ensures
            r == self@.display_info,
    {
        self.display_info
    }
}

impl XmlaTuple {
    /// Reads a Tuple element: one member per child element.
    pub fn from_xml(node: &XmlElement) -> (r: Result<XmlaTuple, XmlaError>)
        ensures
            match spec_tuple(*node) {
                Ok(t) => r matches Ok(x) && x@ == t,
                Err(e) => r matches Err(x) && x@ == e,
            },
    {
        check_tag_name(node, XMLA_DATASET_NS, "Tuple")?;
        let ghost cs = node.children@;
        let mut members: Vec<XmlaMember> = Vec::new();
        let mut i: usize = 0;
        assert(cs.take(0) =~= Seq::<XmlNode>::empty());
        assert(members@.map_values(|m: XmlaMember| m@) =~= Seq::<MemberView>::empty());
        while i < node.children.len()
            invariant
                cs == node.children@,
                i <= cs.len(),
                spec_check_tag_name(*node, XMLA_DATASET_NS@, "Tuple"@) is Ok,
                collect_members(element_children(cs.take(i as int))) == Ok::<
                    Seq<MemberView>,
                    XmlaErrorView,
                >(members@.map_values(|m: XmlaMember| m@)),
            decreases cs.len() - i,
        {
            let ghost prev = element_children(cs.take(i as int));
            assert(cs.take(i + 1).drop_last() =~= cs.take(i as int));
            assert(cs.take(i + 1).last() == cs[i as int]);
            match &node.children[i] {
                XmlNode::Element(m) => {
                    assert(element_children(cs.take(i + 1)) =~= prev.push(*m));
                    assert(prev.push(*m).drop_last() =~= prev);
                    match XmlaMember::from_xml(m) {
                        Ok(x) => {
                            let ghost before = members@.map_values(|m: XmlaMember| m@);
                            members.push(x);
                            assert(members@.map_values(|m: XmlaMember| m@) =~= before.push(x@));
                        },
                        Err(e) => {
                            proof {
                                assert(collect_members(element_children(cs.take(i + 1))) == Err::<
                                    Seq<MemberView>,
                                    XmlaErrorView,
                                >(e@));
                                lemma_collect_children_error(
                                    cs,
                                    |m: XmlElement| spec_member(m),
                                    i + 1,
                                    cs.len() as int,
                                );
                                assert(cs.take(cs.len() as int) =~= cs);
                            }
                            return Err(e);
                        },
                    }
                },
                _ => {
                    assert(element_children(cs.take(i + 1)) =~= prev);
                },
            }
            i = i + 1;
        }
        assert(cs.take(i as int) =~= cs);
        Ok(XmlaTuple { members })
    }

    /// The tuple's members.
    pub fn members(&self) -> (r: &[XmlaMember])
        ensures
            r@.map_values(|m: XmlaMember| m@) == self@,
    {
        self.members.as_slice()
    }
}


impl XmlaAxis {
    /// Reads an Axis element: its name attribute and one tuple per child
    /// element of its Tuples element.
    pub fn from_xml(node: &XmlElement) -> (r: Result<XmlaAxis, XmlaError>)
        ensures
            match spec_axis(*node) {
                Ok(a) => r matches Ok(x) && x@ == a,
                Err(e) => r matches Err(x) && x@ == e,
            },
    {
        check_tag_name(node, XMLA_DATASET_NS, "Axis")?;
        let name = match node.attribute("name") {
            Some(n) => n.clone(),
            None => {
                return Err(
                    XmlaError::ParsingError(String::from_str("Expected name attribute in axis")),
                );
            },
        };
        proof {
            lemma_find_child_found(node.children@, Some(XMLA_DATASET_NS@), Some("Tuples"@), 0);
        }
        let tuples_node = match node.find_child(Some(XMLA_DATASET_NS), Some("Tuples")) {
            Some(t) => t,
            None => {
                let mut message = String::from_str("Tuples element expected in axis ");
                message.append(name.as_str());
                return Err(XmlaError::ParsingError(message));
            },
        };
        let ghost cs = tuples_node.children@;
        let mut tuples: Vec<XmlaTuple> = Vec::new();
        let mut i: usize = 0;
        assert(cs.take(0) =~= Seq::<XmlNode>::empty());
        assert(tuples@.map_values(|t: XmlaTuple| t@) =~= Seq::<Seq<MemberView>>::empty());
        while i < tuples_node.children.len()
            invariant
                cs == tuples_node.children@,
                i <= cs.len(),
                spec_check_tag_name(*node, XMLA_DATASET_NS@, "Axis"@) is Ok,
                spec_attribute(*node, "name"@) == Some(name@),
                spec_find_child_from(node.children@, Some(XMLA_DATASET_NS@), Some("Tuples"@), 0)
                    matches Some(k) && node.children@[k] == XmlNode::Element(*tuples_node),
                collect_tuples(element_children(cs.take(i as int))) == Ok::<
                    Seq<Seq<MemberView>>,
                    XmlaErrorView,
                >(tuples@.map_values(|t: XmlaTuple| t@)),
            decreases cs.len() - i,
        {
            let ghost prev = element_children(cs.take(i as int));
            assert(cs.take(i + 1).drop_last() =~= cs.take(i as int));
            assert(cs.take(i + 1).last() == cs[i as int]);
            match &tuples_node.children[i] {
                XmlNode::Element(t) => {
                    assert(element_children(cs.take(i + 1)) =~= prev.push(*t));
                    assert(prev.push(*t).drop_last() =~= prev);
                    match XmlaTuple::from_xml(t) {
                        Ok(x) => {
                            let ghost before = tuples@.map_values(|t: XmlaTuple| t@);
                            tuples.push(x);
                            assert(tuples@.map_values(|t: XmlaTuple| t@) =~= before.push(x@));
                        },
                        Err(e) => {
                            proof {
                                assert(collect_tuples(element_children(cs.take(i + 1))) == Err::<
                                    Seq<Seq<MemberView>>,
                                    XmlaErrorView,
                                >(e@));
                                lemma_collect_children_error(
                                    cs,
                                    |t: XmlElement| spec_tuple(t),
                                    i + 1,
                                    cs.len() as int,
                                );
                                assert(cs.take(cs.len() as int) =~= cs);
                            }
                            return Err(e);
                        },
                    }
                },
                _ => {
                    assert(element_children(cs.take(i + 1)) =~= prev);
                },
            }
            i = i + 1;
        }
        assert(cs.take(i as int) =~= cs);
        Ok(XmlaAxis { name, tuples })
    }

    /// The axis's name.
    pub fn name(&self) -> (r: &str)
        ensures
            r@ == self@.name,
    {
        self.name.as_str()
    }

    /// The axis's tuples.
    pub fn tuples(&self) -> (r: &[XmlaTuple])
        ensures
            r@.map_values(|t: XmlaTuple| t@) == self@.tuples,
    {
        self.tuples.as_slice()
    }
}


impl XmlaCell {
    /// Reads a Cell element: its CellOrdinal attribute and its Value and
    /// FmtValue children.
    pub fn from_xml(node: &XmlElement) -> (r: Result<XmlaCell, XmlaError>)
        ensures
            match spec_cell(*node) {
                Ok(c) => r matches Ok(x) && x@ == c,
                Err(e) => r matches Err(x) && x@ == e,
            },
    {
        check_tag_name(node, XMLA_DATASET_NS, "Cell")?;
        let ordinal_text = match node.attribute("CellOrdinal") {
            Some(o) => o,
            None => {
                return Err(
                    XmlaError::ParsingError(
                        String::from_str("Expected CellOrdinal attribute in cell"),
                    ),
                );
            },
        };
        let ordinal = match parse_u32(ordinal_text.as_str()) {
            Ok(v) => v,
            Err(f) => {
                return Err(numeric_error(ordinal_text.as_str(), f.as_str()));
            },
        };
        let value = optional_string_child(node, XMLA_DATASET_NS, "Value");
        match &value {
            Some(text) => match check_float(text.as_str()) {
                Ok(()) => {},
                Err(f) => {
                    return Err(numeric_error(text.as_str(), f.as_str()));
                },
            },
            None => {},
        }
        let formatted_value = match optional_string_child(node, XMLA_DATASET_NS, "FmtValue") {
            Some(t) => t,
            None => String::new(),
        };
        Ok(XmlaCell { ordinal, value, formatted_value })
    }

    /// The cell's ordinal.
    pub fn ordinal(&self) -> (r: u32)
        ensures
            r == self@.ordinal,
    {
        self.ordinal
    }

    /// The text of the cell's value; nothing when the cell has no value.
    pub fn value(&self) -> (r: Option<&str>)
        ensures
            match self@.value {
                Some(v) => r matches Some(x) && x@ == v,
                None => r is None,
            },
    {
        match &self.value {
            Some(v) => Some(v.as_str()),
            None => None,
        }
    }

    /// The cell's formatted value; empty when the cell has none.
    pub fn formatted_value(&self) -> (r: &str)
        ensures
            r@ == self@.formatted_value,
    {
        self.formatted_value.as_str()
    }
}


/// A multidimensional dataset: its axes, its cells, and an index of the
/// cells by ordinal.
#[derive(Debug)]
pub struct XmlaDataset {
    axes: Vec<XmlaAxis>,
    cells: Vec<XmlaCell>,
    cells_map: HashMap<u32, usize>,
}

/// The content of an [`XmlaDataset`].
pub ghost struct DatasetView {
    pub axes: Seq<AxisView>,
    pub cells: Seq<CellView>,
}

impl View for XmlaDataset {
    type V = DatasetView;

    closed spec fn view(&self) -> DatasetView {
        DatasetView {
            axes: self.axes@.map_values(|a: XmlaAxis| a@),
            cells: self.cells@.map_values(|c: XmlaCell| c@),
        }
    }
}

/// No two cells share an ordinal.
pub open spec fn ordinals_distinct(cells: Seq<CellView>) -> bool {
    forall|i: int, j: int|
        0 <= i < j < cells.len() ==> #[trigger] cells[i].ordinal != #[trigger] cells[j].ordinal
}

/// The ordinal of the first cell, in document order, whose ordinal an
/// earlier cell already has.
pub open spec fn spec_duplicate_ordinal(cells: Seq<CellView>) -> Option<u32>
    decreases cells.len(),
{
    if cells.len() == 0 {
        None
    } else {
        match spec_duplicate_ordinal(cells.drop_last()) {
            Some(o) => Some(o),
            None => if exists|i: int|
                0 <= i < cells.len() - 1 && #[trigger] cells[i].ordinal == cells.last().ordinal {
                Some(cells.last().ordinal)
            } else {
                None
            },
        }
    }
}

/// The index of the cell with the given ordinal, if there is one (the
/// first, were there several).
pub open spec fn spec_cell_index(cells: Seq<CellView>, ordinal: u32) -> Option<int> {
    if exists|i: int| first_with_ordinal(cells, ordinal, i) {
        Some(choose|i: int| first_with_ordinal(cells, ordinal, i))
    } else {
        None
    }
}

/// Cell `i` has the ordinal, and no cell before it does.
pub open spec fn first_with_ordinal(cells: Seq<CellView>, ordinal: u32, i: int) -> bool {
    &&& 0 <= i < cells.len()
    &&& cells[i].ordinal == ordinal
    &&& forall|k: int| 0 <= k < i ==> #[trigger] cells[k].ordinal != ordinal
}

/// Reading the result of an Execute request: the `return` element, the
/// dataset `root` inside it, the Axis children of its Axes element and the
/// Cell children of its CellData element; no two cells may share an
/// ordinal.
pub open spec fn spec_dataset(node: XmlElement) -> Result<DatasetView, XmlaErrorView> {
    match spec_first_element_child(node, XMLA_NS@, "return"@) {
        Err(e) => Err(e),
        Ok(ret) => match spec_first_element_child(ret, XMLA_DATASET_NS@, "root"@) {
            Err(e) => Err(e),
            Ok(root) => match spec_find_child_from(
                root.children@,
                Some(XMLA_DATASET_NS@),
                Some("Axes"@),
                0,
            ) {
                None => Err(XmlaErrorView::ParsingError("Axes element expected in dataset"@)),
                Some(a) => match collect_axes(
                    named_children(
                        root.children@[a]->Element_0.children@,
                        XMLA_DATASET_NS@,
                        "Axis"@,
                    ),
                ) {
                    Err(e) => Err(e),
                    Ok(axes) => match spec_find_child_from(
                        root.children@,
                        Some(XMLA_DATASET_NS@),
                        Some("CellData"@),
                        0,
                    ) {
                        None => Err(
                            XmlaErrorView::ParsingError("CellData element expected in dataset"@),
                        ),
                        Some(c) => match collect_cells(
                            named_children(
                                root.children@[c]->Element_0.children@,
                                XMLA_DATASET_NS@,
                                "Cell"@,
                            ),
                        ) {
                            Err(e) => Err(e),
                            Ok(cells) => match spec_duplicate_ordinal(cells) {
                                Some(o) => Err(
                                    XmlaErrorView::ParsingError(
                                        "Duplicate cell ordinal "@ + spec_decimal(o as nat),
                                    ),
                                ),
                                None => Ok(DatasetView { axes, cells }),
                            },
                        },
                    },
                },
            },
        },
    }
}

/// Reads the Axis children of an Axes element, in order.
fn read_axes(axes_node: &XmlElement) -> (r: Result<Vec<XmlaAxis>, XmlaError>)
    ensures
        match collect_axes(named_children(axes_node.children@, XMLA_DATASET_NS@, "Axis"@)) {
            Ok(v) => r matches Ok(x) && x@.map_values(|a: XmlaAxis| a@) == v,
            Err(e) => r matches Err(x) && x@ == e,
        },
{
    let ghost cs = axes_node.children@;
    let mut axes: Vec<XmlaAxis> = Vec::new();
    let mut i: usize = 0;
    assert(cs.take(0) =~= Seq::<XmlNode>::empty());
    assert(axes@.map_values(|a: XmlaAxis| a@) =~= Seq::<AxisView>::empty());
    while i < axes_node.children.len()
        invariant
            cs == axes_node.children@,
            i <= cs.len(),
            collect_axes(named_children(cs.take(i as int), XMLA_DATASET_NS@, "Axis"@)) == Ok::<
                Seq<AxisView>,
                XmlaErrorView,
            >(axes@.map_values(|a: XmlaAxis| a@)),
        decreases cs.len() - i,
    {
        let ghost prev = named_children(cs.take(i as int), XMLA_DATASET_NS@, "Axis"@);
        assert(cs.take(i + 1).drop_last() =~= cs.take(i as int));
        assert(cs.take(i + 1).last() == cs[i as int]);
        match &axes_node.children[i] {
            XmlNode::Element(a) => {
                if a.has_tag_name(XMLA_DATASET_NS, "Axis") {
                    assert(named_children(cs.take(i + 1), XMLA_DATASET_NS@, "Axis"@) =~= prev.push(
                        *a,
                    ));
                    assert(prev.push(*a).drop_last() =~= prev);
                    match XmlaAxis::from_xml(a) {
                        Ok(x) => {
                            let ghost before = axes@.map_values(|a: XmlaAxis| a@);
                            axes.push(x);
                            assert(axes@.map_values(|a: XmlaAxis| a@) =~= before.push(x@));
                        },
                        Err(e) => {
                            proof {
                                lemma_collect_named_error(
                                    cs,
                                    XMLA_DATASET_NS@,
                                    "Axis"@,
                                    |a: XmlElement| spec_axis(a),
                                    i + 1,
                                    cs.len() as int,
                                );
                                assert(cs.take(cs.len() as int) =~= cs);
                            }
                            return Err(e);
                        },
                    }
                } else {
                    assert(named_children(cs.take(i + 1), XMLA_DATASET_NS@, "Axis"@) =~= prev);
                }
            },
            _ => {
                assert(named_children(cs.take(i + 1), XMLA_DATASET_NS@, "Axis"@) =~= prev);
            },
        }
        i = i + 1;
    }
    assert(cs.take(i as int) =~= cs);
    Ok(axes)
}

/// Reads the Cell children of a CellData element, in order.
fn read_cells(data_node: &XmlElement) -> (r: Result<Vec<XmlaCell>, XmlaError>)
    ensures
        match collect_cells(named_children(data_node.children@, XMLA_DATASET_NS@, "Cell"@)) {
            Ok(v) => r matches Ok(x) && x@.map_values(|c: XmlaCell| c@) == v,
            Err(e) => r matches Err(x) && x@ == e,
        },
{
    let ghost cs = data_node.children@;
    let mut cells: Vec<XmlaCell> = Vec::new();
    let mut i: usize = 0;
    assert(cs.take(0) =~= Seq::<XmlNode>::empty());
    assert(cells@.map_values(|c: XmlaCell| c@) =~= Seq::<CellView>::empty());
    while i < data_node.children.len()
        invariant
            cs == data_node.children@,
            i <= cs.len(),
            collect_cells(named_children(cs.take(i as int), XMLA_DATASET_NS@, "Cell"@)) == Ok::<
                Seq<CellView>,
                XmlaErrorView,
            >(cells@.map_values(|c: XmlaCell| c@)),
        decreases cs.len() - i,
    {
        let ghost prev = named_children(cs.take(i as int), XMLA_DATASET_NS@, "Cell"@);
        assert(cs.take(i + 1).drop_last() =~= cs.take(i as int));
        assert(cs.take(i + 1).last() == cs[i as int]);
        match &data_node.children[i] {
            XmlNode::Element(c) => {
                if c.has_tag_name(XMLA_DATASET_NS, "Cell") {
                    assert(named_children(cs.take(i + 1), XMLA_DATASET_NS@, "Cell"@) =~= prev.push(
                        *c,
                    ));
                    assert(prev.push(*c).drop_last() =~= prev);
                    match XmlaCell::from_xml(c) {
                        Ok(x) => {
                            let ghost before = cells@.map_values(|c: XmlaCell| c@);
                            cells.push(x);
                            assert(cells@.map_values(|c: XmlaCell| c@) =~= before.push(x@));
                        },
                        Err(e) => {
                            proof {
                                lemma_collect_named_error(
                                    cs,
                                    XMLA_DATASET_NS@,
                                    "Cell"@,
                                    |c: XmlElement| spec_cell(c),
                                    i + 1,
                                    cs.len() as int,
                                );
                                assert(cs.take(cs.len() as int) =~= cs);
                            }
                            return Err(e);
                        },
                    }
                } else {
                    assert(named_children(cs.take(i + 1), XMLA_DATASET_NS@, "Cell"@) =~= prev);
                }
            },
            _ => {
                assert(named_children(cs.take(i + 1), XMLA_DATASET_NS@, "Cell"@) =~= prev);
            },
        }
        i = i + 1;
    }
    assert(cs.take(i as int) =~= cs);
    Ok(cells)
}


/// The map indexes the cells by ordinal: each key is the ordinal of the cell
/// it points to, and each cell's ordinal is a key.
pub open spec fn indexes_cells(m: Map<u32, usize>, cells: Seq<CellView>) -> bool {
    &&& forall|k: u32|
        #[trigger] m.contains_key(k) ==> m[k] < cells.len() && cells[m[k] as int].ordinal == k
    &&& forall|i: int| 0 <= i < cells.len() ==> m.contains_key(#[trigger] cells[i].ordinal)
}

/// Once a prefix holds a duplicate ordinal, every longer prefix reports the
/// same one.
proof fn lemma_duplicate_extends(cells: Seq<CellView>, i: int, j: int)
    requires
        0 <= i <= j <= cells.len(),
        spec_duplicate_ordinal(cells.take(i)) is Some,
    ensures
        spec_duplicate_ordinal(cells.take(j)) == spec_duplicate_ordinal(cells.take(i)),
    decreases j - i,
{
    if j > i {
        lemma_duplicate_extends(cells, i, j - 1);
        assert(cells.take(j).drop_last() =~= cells.take(j - 1));
    }
}

/// Indexes cells by ordinal; the first ordinal that occurs twice is
/// returned as the error.
fn index_cells(cells: &Vec<XmlaCell>) -> (r: Result<HashMap<u32, usize>, u32>)
    ensures
        match spec_duplicate_ordinal(cells@.map_values(|c: XmlaCell| c@)) {
            Some(o) => r == Err::<HashMap<u32, usize>, u32>(o),
            None => r matches Ok(m) && ordinals_distinct(cells@.map_values(|c: XmlaCell| c@))
                && indexes_cells(m@, cells@.map_values(|c: XmlaCell| c@)),
        },
{
    let ghost cv = cells@.map_values(|c: XmlaCell| c@);
    let mut map: HashMap<u32, usize> = HashMap::new();
    let mut j: usize = 0;
    assert(cv.take(0) =~= Seq::<CellView>::empty());
    while j < cells.len()
        invariant
            cv == cells@.map_values(|c: XmlaCell| c@),
            j <= cells.len(),
            spec_duplicate_ordinal(cv.take(j as int)) is None,
            ordinals_distinct(cv.take(j as int)),
            indexes_cells(map@, cv.take(j as int)),
        decreases cells.len() - j,
    {
        let ordinal = cells[j].ordinal;
        let ghost prefix = cv.take(j as int);
        let ghost next = cv.take(j + 1);
        assert(next.drop_last() =~= prefix);
        assert(next.last() == cv[j as int]);
        assert(cv[j as int].ordinal == ordinal);
        if map.contains_key(&ordinal) {
            proof {
                let k = map@[ordinal] as int;
                assert(0 <= k < next.len() - 1 && next[k].ordinal == next.last().ordinal);
                assert(spec_duplicate_ordinal(next) == Some(ordinal));
                lemma_duplicate_extends(cv, j + 1, cv.len() as int);
                assert(cv.take(cv.len() as int) =~= cv);
            }
            return Err(ordinal);
        }
        map.insert(ordinal, j);
        proof {
            assert forall|i: int| 0 <= i < next.len() - 1 implies #[trigger] next[i].ordinal
                != next.last().ordinal by {
                assert(next[i] == prefix[i]);
                assert(map@.contains_key(prefix[i].ordinal) || prefix[i].ordinal == ordinal);
            }
            assert(spec_duplicate_ordinal(next) is None);
            assert forall|a: int, b: int| 0 <= a < b < next.len() implies #[trigger] next[a].ordinal
                != #[trigger] next[b].ordinal by {
                if b < next.len() - 1 {
                    assert(next[a] == prefix[a] && next[b] == prefix[b]);
                }
            }
            assert forall|k: u32| #[trigger] map@.contains_key(k) implies map@[k] < next.len()
                && next[map@[k] as int].ordinal == k by {
                if k != ordinal {
                    assert(next[map@[k] as int] == prefix[map@[k] as int]);
                }
            }
            assert forall|i: int| 0 <= i < next.len() implies map@.contains_key(
                #[trigger] next[i].ordinal,
            ) by {
                if i < next.len() - 1 {
                    assert(next[i] == prefix[i]);
                }
            }
        }
        j = j + 1;
    }
    assert(cv.take(j as int) =~= cv);
    Ok(map)
}


/// The number of tuples on the axis at `index`, or 0 without such an axis.
pub open spec fn axis_length(v: DatasetView, index: int) -> nat {
    if 0 <= index < v.axes.len() {
        v.axes[index].tuples.len()
    } else {
        0
    }
}

/// The number of columns of a dataset: the tuples of its first axis.
pub open spec fn spec_column_count(v: DatasetView) -> nat {
    axis_length(v, 0)
}

/// The number of rows of a dataset: the tuples of its second axis.
pub open spec fn spec_row_count(v: DatasetView) -> nat {
    axis_length(v, 1)
}

/// The ordinal of the cell at a column and a row of a two-dimensional
/// dataset: none where a count does not fit in 32 bits, the position lies
/// outside the counts, or the ordinal does not fit in 32 bits.
pub open spec fn spec_cell_at_ordinal(v: DatasetView, column: u32, row: u32) -> Option<u32> {
    let columns = spec_column_count(v);
    let rows = spec_row_count(v);
    if columns > u32::MAX || rows > u32::MAX || column >= columns || row >= rows {
        None
    } else if row * columns + column > u32::MAX {
        None
    } else {
        Some((row * columns + column) as u32)
    }
}

/// The cell at a column and a row of a two-dimensional dataset.
pub open spec fn spec_cell_at(v: DatasetView, column: u32, row: u32) -> Option<CellView> {
    match spec_cell_at_ordinal(v, column, row) {
        None => None,
        Some(o) => match spec_cell_index(v.cells, o) {
            None => None,
            Some(i) => Some(v.cells[i]),
        },
    }
}

impl XmlaDataset {
    #[verifier::type_invariant]
    spec fn well_formed(&self) -> bool {
        &&& ordinals_distinct(self@.cells)
        &&& indexes_cells(self.cells_map@, self@.cells)
    }

    /// The index of the cell with an ordinal, found through the index.
    fn index_of(&self, ordinal: u32) -> (r: Option<usize>)
        ensures
            match r {
                Some(x) => spec_cell_index(self@.cells, ordinal) == Some(x as int) && x
                    < self.cells@.len(),
                None => spec_cell_index(self@.cells, ordinal) is None,
            },
    {
        proof {
            use_type_invariant(self);
        }
        let ghost cv = self@.cells;
        match self.cells_map.get(&ordinal) {
            Some(index) => {
                let index = *index;
                proof {
                    assert(first_with_ordinal(cv, ordinal, index as int)) by {
                        assert forall|k: int| 0 <= k < index implies #[trigger] cv[k].ordinal
                            != ordinal by {
                            assert(cv[k].ordinal != cv[index as int].ordinal);
                        }
                    }
                    let c = choose|i: int| first_with_ordinal(cv, ordinal, i);
                    if c < index {
                        assert(cv[c].ordinal != ordinal);
                    } else if c > index {
                        assert(cv[index as int].ordinal != ordinal);
                    }
                }
                Some(index)
            },
            None => {
                proof {
                    assert forall|i: int| !first_with_ordinal(cv, ordinal, i) by {
                        if 0 <= i < cv.len() {
                            assert(self.cells_map@.contains_key(cv[i].ordinal));
                        }
                    }
                }
                None
            },
        }
    }

    /// Reads the result of an Execute request from the element that the
    /// SOAP body holds.
    pub fn from_xml(node: &XmlElement) -> (r: Result<XmlaDataset, XmlaError>)
        ensures
            match spec_dataset(*node) {
                Ok(d) => r matches Ok(x) && x@ == d,
                Err(e) => r matches Err(x) && x@ == e,
            },
    {
        let return_node = get_first_element_child(node, XMLA_NS, "return")?;
        let root_node = get_first_element_child(return_node, XMLA_DATASET_NS, "root")?;
        proof {
            lemma_find_child_found(root_node.children@, Some(XMLA_DATASET_NS@), Some("Axes"@), 0);
            lemma_find_child_found(
                root_node.children@,
                Some(XMLA_DATASET_NS@),
                Some("CellData"@),
                0,
            );
        }
        let axes_node = match root_node.find_child(Some(XMLA_DATASET_NS), Some("Axes")) {
            Some(a) => a,
            None => {
                return Err(
                    XmlaError::ParsingError(String::from_str("Axes element expected in dataset")),
                );
            },
        };
        let axes = read_axes(axes_node)?;
        let data_node = match root_node.find_child(Some(XMLA_DATASET_NS), Some("CellData")) {
            Some(c) => c,
            None => {
                return Err(
                    XmlaError::ParsingError(
                        String::from_str("CellData element expected in dataset"),
                    ),
                );
            },
        };
        let cells = read_cells(data_node)?;
        let cells_map = match index_cells(&cells) {
            Ok(m) => m,
            Err(ordinal) => {
                let message = prefixed_decimal("Duplicate cell ordinal ", ordinal as u64);
                return Err(XmlaError::ParsingError(message));
            },
        };
        Ok(XmlaDataset { axes, cells, cells_map })
    }

    /// Reads the result of an Execute request from a parsed SOAP message.
    pub fn from_document(document: &XmlElement) -> (r: Result<XmlaDataset, XmlaError>)
        ensures
            match spec_get_body_child(*document) {
                Err(e) => r matches Err(x) && x@ == e,
                Ok(child) => match spec_dataset(child) {
                    Ok(d) => r matches Ok(x) && x@ == d,
                    Err(e) => r matches Err(x) && x@ == e,
                },
            },
    {
        let child = get_body_child(document)?;
        XmlaDataset::from_xml(child)
    }

    /// The axes, in document order.
    pub fn axes(&self) -> (r: &[XmlaAxis])
        ensures
            r@.map_values(|a: XmlaAxis| a@) == self@.axes,
    {
        self.axes.as_slice()
    }

    /// The axis at an index, if there is one.
    pub fn axis(&self, index: usize) -> (r: Option<&XmlaAxis>)
        ensures
            if index < self@.axes.len() {
                r matches Some(a) && a@ == self@.axes[index as int]
            } else {
                r is None
            },
    {
        if index < self.axes.len() {
            Some(&self.axes[index])
        } else {
            None
        }
    }

    /// The cells, in document order.
    pub fn cells(&self) -> (r: &[XmlaCell])
        ensures
            r@.map_values(|c: XmlaCell| c@) == self@.cells,
    {
        self.cells.as_slice()
    }

    /// The cell with an ordinal, if there is one.
    pub fn cell(&self, ordinal: u32) -> (r: Option<&XmlaCell>)
        ensures
            match spec_cell_index(self@.cells, ordinal) {
                Some(i) => r matches Some(c) && c@ == self@.cells[i],
                None => r is None,
            },
    {
        match self.index_of(ordinal) {
            Some(i) => {
                assert(self@.cells[i as int] == self.cells@[i as int]@);
                Some(&self.cells[i])
            },
            None => None,
        }
    }

    /// The number of rows: the tuples of the second axis, or 0.
    pub fn row_count(&self) -> (r: usize)
        ensures
            r == spec_row_count(self@),
    {
        if self.axes.len() > 1 {
            self.axes[1].tuples.len()
        } else {
            0
        }
    }

    /// The number of columns: the tuples of the first axis, or 0.
    pub fn column_count(&self) -> (r: usize)
        ensures
            r == spec_column_count(self@),
    {
        if self.axes.len() > 0 {
            self.axes[0].tuples.len()
        } else {
            0
        }
    }

    /// The cell at a column and a row of a two-dimensional result, found by
    /// its ordinal `row * columns + column`.
    pub fn cell_at(&self, column: u32, row: u32) -> (r: Option<&XmlaCell>)
        ensures
            match spec_cell_at(self@, column, row) {
                Some(c) => r matches Some(x) && x@ == c,
                None => r is None,
            },
    {
        let columns = self.column_count();
        let rows = self.row_count();
        if columns > 0xffff_ffff || rows > 0xffff_ffff {
            return None;
        }
        let columns = columns as u32;
        let rows = rows as u32;
        if column >= columns || row >= rows {
            return None;
        }
        let ordinal = match row.checked_mul(columns) {
            Some(p) => match p.checked_add(column) {
                Some(o) => o,
                None => {
                    return None;
                },
            },
            None => {
                proof {
                    assert(row * columns + column > u32::MAX) by (nonlinear_arith)
                        requires
                            row * columns > u32::MAX,
                            column >= 0,
                    ;
                }
                return None;
            },
        };
        self.cell(ordinal)
    }

    /// The formatted value of the cell at a column and a row.
    pub fn cell_formatted_value_at(&self, column: u32, row: u32) -> (r: Option<&str>)
        ensures
            match spec_cell_at(self@, column, row) {
                Some(c) => r matches Some(x) && x@ == c.formatted_value,
                None => r is None,
            },
    {
        match self.cell_at(column, row) {
            Some(c) => Some(c.formatted_value.as_str()),
            None => None,
        }
    }
}

impl Default for XmlaDataset {
    fn default() -> (r: XmlaDataset)
        ensures
            r@.axes == Seq::<AxisView>::empty(),
            r@.cells == Seq::<CellView>::empty(),
    {
        let r = XmlaDataset { axes: Vec::new(), cells: Vec::new(), cells_map: HashMap::new() };
        assert(r@.axes =~= Seq::<AxisView>::empty());
        assert(r@.cells =~= Seq::<CellView>::empty());
        r
    }
}


/// Cells with no duplicate ordinal have distinct ordinals.
pub proof fn lemma_no_duplicate_distinct(cells: Seq<CellView>)
    requires
        spec_duplicate_ordinal(cells) is None,
    ensures
        ordinals_distinct(cells),
    decreases cells.len(),
{
    if cells.len() > 0 {
        let prefix = cells.drop_last();
        lemma_no_duplicate_distinct(prefix);
        assert forall|i: int, j: int| 0 <= i < j < cells.len() implies #[trigger] cells[i].ordinal
            != #[trigger] cells[j].ordinal by {
            if j < cells.len() - 1 {
                assert(cells[i] == prefix[i] && cells[j] == prefix[j]);
            } else {
                assert(cells[j] == cells.last());
                if cells[i].ordinal == cells[j].ordinal {
                    assert(0 <= i < cells.len() - 1 && cells[i].ordinal == cells.last().ordinal);
                }
            }
        }
    }
}

/// The cells of a dataset read from a response have distinct ordinals, and
/// each is the one found by its ordinal.
pub proof fn lemma_dataset_cells_by_ordinal(node: XmlElement, i: int)
    requires
        spec_dataset(node) is Ok,
        0 <= i < spec_dataset(node)->Ok_0.cells.len(),
    ensures
        ordinals_distinct(spec_dataset(node)->Ok_0.cells),
        spec_cell_index(
            spec_dataset(node)->Ok_0.cells,
            spec_dataset(node)->Ok_0.cells[i].ordinal,
        ) == Some(i),
{
    let cells = spec_dataset(node)->Ok_0.cells;
    lemma_no_duplicate_distinct(cells);
    let o = cells[i].ordinal;
    assert(first_with_ordinal(cells, o, i)) by {
        assert forall|k: int| 0 <= k < i implies #[trigger] cells[k].ordinal != o by {
            assert(cells[k].ordinal != cells[i].ordinal);
        }
    }
    let c = choose|j: int| first_with_ordinal(cells, o, j);
    if c < i {
        assert(cells[c].ordinal != cells[i].ordinal);
    } else if c > i {
        assert(cells[i].ordinal != o);
    }
}

/// In a two-dimensional result, the cell at a column and a row inside the
/// counts is the cell whose ordinal is `row * columns + column`, when that
/// number fits in 32 bits.
pub proof fn lemma_cell_at_ordinal(v: DatasetView, column: u32, row: u32)
    requires
        spec_column_count(v) <= u32::MAX,
        spec_row_count(v) <= u32::MAX,
        column < spec_column_count(v),
        row < spec_row_count(v),
        row * spec_column_count(v) + column <= u32::MAX,
    ensures
        spec_cell_at(v, column, row) == (match spec_cell_index(
            v.cells,
            (row * spec_column_count(v) + column) as u32,
        ) {
            Some(i) => Some(v.cells[i]),
            None => None,
        }),
{
}

/// The rows of a two-dimensional result are the tuples of its second axis
/// and its columns the tuples of its first, whatever axes follow (0 where
/// there is no such axis); and the cell at a column and a row inside them
/// is the cell whose ordinal is `row * columns + column`.
pub proof fn lemma_rows_are_second_axis(v: DatasetView, column: u32, row: u32)
    ensures
        spec_row_count(v) == (if v.axes.len() >= 2 {
            v.axes[1].tuples.len()
        } else {
            0
        }),
        spec_column_count(v) == (if v.axes.len() >= 1 {
            v.axes[0].tuples.len()
        } else {
            0
        }),
        v.axes.len() >= 2 && v.axes[0].tuples.len() <= u32::MAX && v.axes[1].tuples.len()
            <= u32::MAX && column < v.axes[0].tuples.len() && row < v.axes[1].tuples.len() && row
            * v.axes[0].tuples.len() + column <= u32::MAX ==> spec_cell_at(v, column, row) == (
        match spec_cell_index(v.cells, (row * v.axes[0].tuples.len() + column) as u32) {
            Some(i) => Some(v.cells[i]),
            None => None,
        }),
{
}

/// Reading the text of a SOAP message that answers an Execute request.
pub open spec fn spec_parse_execute_response(xml: Seq<char>) -> Result<DatasetView, XmlaErrorView> {
    match xml_document(xml) {
        None => Err(XmlaErrorView::Xml),
        Some(document) => match spec_get_body_child(document) {
            Err(e) => Err(e),
            Ok(child) => spec_dataset(child),
        },
    }
}

/// Parses the SOAP message that answers an Execute request.
pub fn parse_execute_response(xml: &str) -> (r: Result<XmlaDataset, XmlaError>)
    ensures
        match spec_parse_execute_response(xml@) {
            Ok(d) => r matches Ok(x) && x@ == d,
            Err(e) => r matches Err(x) && x@ == e,
        },
{
    let document = match parse_xml(xml) {
        Ok(d) => d,
        Err(e) => {
            return Err(XmlaError::Xml(e));
        },
    };
    XmlaDataset::from_document(&document)
}

} // verus!
