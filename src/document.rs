//! The configuration document as plain values: nodes with a name, positional values,
//! named properties and children, and the readers of the fields of each node.
use vstd::prelude::*;
use crate::config::{Mode, MonConfig, Position};
use crate::search::{first_in, lemma_first_in};

verus! {

/// A value in the document.
#[derive(Debug, Clone, PartialEq, Eq)]
pub enum Value {
    Int(i64),
    Boolean(bool),
    String(String),
    /// Any other kind of value.
    Other,
}

/// A node of the document.
#[derive(Debug)]
pub struct Node {
    pub name: String,
    pub values: Vec<Value>,
    /// Named properties; a name occurs at most once.
    pub properties: Vec<(String, Value)>,
    pub children: Vec<Node>,
}

/// Why a document does not describe a configuration.
#[derive(Debug, Clone, PartialEq, Eq)]
pub enum Error {
    /// `.0` is missing its `.1` field.
    MissingField(&'static str, &'static str),
    /// Layout `.0` names monitor `.1`, which no monitor node defines.
    UnknownMonitor(String, String),
    /// Layout `.0` configures monitor `.1`, which its `matches` list does not hold.
    UnmatchedMonitor(String, String),
    /// A value of `.0` has the wrong type; `.1` was expected.
    FieldTypeMisMatch(&'static str, &'static str),
    /// A node named `.1` stands where a `.0` node was expected.
    NodeTypeMismatch(&'static str, String),
    /// A node that may occur once occurs twice.
    DuplicateSingleton(&'static str),
    /// A node of this name is not expected here.
    Unexpected(String),
    /// The monitor node of this name has children.
    UnexpectedChildren(String),
    /// Layout `.0` reaches beyond the largest screen the protocol can describe.
    LayoutTooLarge(String),
}

pub open spec fn prop_is(key: Seq<char>) -> spec_fn((String, Value)) -> bool {
    |p: (String, Value)| p.0@ == key
}

/// The value of property `key` of `n`.
pub open spec fn property(n: Node, key: Seq<char>) -> Option<Value> {
    match first_in(n.properties@, prop_is(key)) {
        Some(p) => Some(p.1),
        None => None,
    }
}

pub fn str_eq(a: &str, b: &str) -> (r: bool)
    ensures
        r == (a@ == b@),
{
    let la = a.unicode_len();
    let lb = b.unicode_len();
    if la != lb {
        return false;
    }
    let mut i: usize = 0;
    while i < la
        invariant
            la == a@.len(),
            lb == b@.len(),
            la == lb,
            0 <= i <= la,
            forall|j: int| 0 <= j < i ==> a@[j] == b@[j],
        decreases la - i,
    {
        if a.get_char(i) != b.get_char(i) {
            return false;
        }
        i += 1;
    }
    assert(a@ =~= b@);
    true
}

fn get_property<'a>(n: &'a Node, key: &str) -> (r: Option<&'a Value>)
    ensures
        match r {
            Some(v) => property(*n, key@) == Some(*v),
            None => property(*n, key@) is None,
        },
{
    let mut i: usize = 0;
    while i < n.properties.len()
        invariant
            0 <= i <= n.properties@.len(),
            forall|j: int| 0 <= j < i ==> !prop_is(key@)(#[trigger] n.properties@[j]),
        decreases n.properties@.len() - i,
    {
        if str_eq(n.properties[i].0.as_str(), key) {
            proof {
                lemma_first_in(n.properties@, prop_is(key@), i as int);
            }
            return Some(&n.properties[i].1);
        }
        i += 1;
    }
    proof {
        lemma_first_in(n.properties@, prop_is(key@), i as int);
    }
    None
}

/// An integer property, which must be there.
pub open spec fn int_field(n: Node, field: &'static str, owner: &'static str) -> Result<i64, Error> {
    match property(n, field@) {
        None => Err(Error::MissingField(owner, field)),
        Some(Value::Int(i)) => Ok(i),
        Some(_) => Err(Error::FieldTypeMisMatch(owner, "int")),
    }
}

/// A boolean property, false when missing.
pub open spec fn bool_field(n: Node, field: &'static str, owner: &'static str) -> Result<bool, Error> {
    match property(n, field@) {
        None => Ok(false),
        Some(Value::Boolean(b)) => Ok(b),
        Some(_) => Err(Error::FieldTypeMisMatch(owner, "boolean")),
    }
}

/// A string property, which may be missing.
pub open spec fn optional_str_field(n: Node, field: &'static str, owner: &'static str) -> Result<Option<String>, Error> {
    match property(n, field@) {
        None => Ok(None),
        Some(Value::String(s)) => Ok(Some(s)),
        Some(_) => Err(Error::FieldTypeMisMatch(owner, "String")),
    }
}

/// The node's name argument: its first value, a string.
pub open spec fn name_field(n: Node, owner: &'static str) -> Result<String, Error> {
    if n.values@.len() == 0 {
        Err(Error::MissingField(owner, "name"))
    } else {
        match n.values@[0] {
            Value::String(s) => Ok(s),
            _ => Err(Error::FieldTypeMisMatch(owner, "String")),
        }
    }
}

pub fn extract_int_value(n: &Node, field: &'static str, owner: &'static str) -> (r: Result<i64, Error>)
    ensures
        r == int_field(*n, field, owner),
{
    match get_property(n, field) {
        None => Err(Error::MissingField(owner, field)),
        Some(Value::Int(i)) => Ok(*i),
        Some(_) => Err(Error::FieldTypeMisMatch(owner, "int")),
    }
}

pub fn extract_bool_value(n: &Node, field: &'static str, owner: &'static str) -> (r: Result<bool, Error>)
    ensures
        r == bool_field(*n, field, owner),
{
    match get_property(n, field) {
        None => Ok(false),
        Some(Value::Boolean(b)) => Ok(*b),
        Some(_) => Err(Error::FieldTypeMisMatch(owner, "boolean")),
    }
}

pub fn extract_optional_str(n: &Node, field: &'static str, owner: &'static str) -> (r: Result<Option<String>, Error>)
    ensures
        r == optional_str_field(*n, field, owner),
{
    match get_property(n, field) {
        None => Ok(None),
        Some(Value::String(s)) => Ok(Some(s.clone())),
        Some(_) => Err(Error::FieldTypeMisMatch(owner, "String")),
    }
}

pub fn get_name(n: &Node, owner: &'static str) -> (r: Result<String, Error>)
    ensures
        r == name_field(*n, owner),
{
    if n.values.len() == 0 {
        return Err(Error::MissingField(owner, "name"));
    }
    match &n.values[0] {
        Value::String(s) => Ok(s.clone()),
        _ => Err(Error::FieldTypeMisMatch(owner, "String")),
    }
}

/// A `monitor` node inside a layout: the monitor's name and its settings. Coordinates
/// and sizes are cast to their field types, as `as` does.
pub open spec fn mon_config_of(n: Node) -> Result<(String, MonConfig), Error> {
    if n.name@ != "monitor"@ {
        Err(Error::NodeTypeMismatch("monitor", n.name))
    } else {
        match name_field(n, "layout.monitor") {
            Err(e) => Err(e),
            Ok(name) => match int_field(n, "x", "layout.monitor") {
                Err(e) => Err(e),
                Ok(x) => match int_field(n, "y", "layout.monitor") {
                    Err(e) => Err(e),
                    Ok(y) => match int_field(n, "w", "layout.monitor") {
                        Err(e) => Err(e),
                        Ok(w) => match int_field(n, "h", "layout.monitor") {
                            Err(e) => Err(e),
                            Ok(h) => match bool_field(n, "primary", "layout.monitor") {
                                Err(e) => Err(e),
                                Ok(primary) => Ok(
                                    (
                                        name,
                                        MonConfig {
                                            mode: Mode { w: w as u16, h: h as u16 },
                                            position: Position { x: x as i16, y: y as i16 },
                                            primary,
                                        },
                                    ),
                                ),
                            },
                        },
                    },
                },
            },
        }
    }
}

impl MonConfig {
    /// Reads a `monitor` node of a layout.
    pub fn from_node(n: &Node) -> (r: Result<(String, MonConfig), Error>)
        ensures
            r == mon_config_of(*n),
    {
        proof {
            reveal_strlit("monitor");
        }
        if !str_eq(n.name.as_str(), "monitor") {
            return Err(Error::NodeTypeMismatch("monitor", n.name.clone()));
        }
        let name = get_name(n, "layout.monitor")?;
        let x = extract_int_value(n, "x", "layout.monitor")?;
        let y = extract_int_value(n, "y", "layout.monitor")?;
        let w = extract_int_value(n, "w", "layout.monitor")?;
        let h = extract_int_value(n, "h", "layout.monitor")?;
        let primary = extract_bool_value(n, "primary", "layout.monitor")?;
        Ok(
            (
                name,
                MonConfig {
                    mode: Mode { w: w as u16, h: h as u16 },
                    position: Position { x: x as i16, y: y as i16 },
                    primary,
                },
            ),
        )
    }
}

/// The strings among `vals`, or `None` if one of them is not a string.
pub open spec fn string_values(vals: Seq<Value>) -> Option<Seq<String>>
    decreases vals.len(),
{
    if vals.len() == 0 {
        Some(Seq::empty())
    } else {
        match (string_values(vals.drop_last()), vals.last()) {
            (Some(rest), Value::String(s)) => Some(rest.push(s)),
            _ => None,
        }
    }
}

/// The children of a `layout` node read in order: its monitor settings and its
/// `matches` list, if any.
pub open spec fn layout_body(children: Seq<Node>) -> Result<(Seq<(String, MonConfig)>, Option<Seq<String>>), Error>
    decreases children.len(),
{
    if children.len() == 0 {
        Ok((Seq::empty(), None))
    } else {
        match layout_body(children.drop_last()) {
            Err(e) => Err(e),
            Ok((entries, matches)) => {
                let c = children.last();
                if c.name@ == "monitor"@ {
                    match mon_config_of(c) {
                        Err(e) => Err(e),
                        Ok(mc) => Ok((entries.push(mc), matches)),
                    }
                } else if c.name@ == "matches"@ {
                    if matches is Some {
                        Err(Error::DuplicateSingleton("layout.matches"))
                    } else {
                        match string_values(c.values@) {
                            None => Err(Error::FieldTypeMisMatch("matches", "String")),
                            Some(v) => Ok((entries, Some(v))),
                        }
                    }
                } else {
                    Err(Error::Unexpected(c.name))
                }
            },
        }
    }
}

/// A layout as read from its node, before monitor names are resolved.
pub struct LayoutSpec {
    pub name: String,
    pub matches: Seq<String>,
    pub layout: Seq<(String, MonConfig)>,
}

/// A `layout` node: its name, the monitors it matches, and the settings of its monitors.
pub open spec fn layout_of(n: Node) -> Result<LayoutSpec, Error> {
    if n.name@ != "layout"@ {
        Err(Error::NodeTypeMismatch("layout", n.name))
    } else {
        match name_field(n, "layout") {
            Err(e) => Err(e),
            Ok(name) => match layout_body(n.children@) {
                Err(e) => Err(e),
                Ok((_, None)) => Err(Error::MissingField("layout", "matches")),
                Ok((entries, Some(m))) => Ok(LayoutSpec { name, matches: m, layout: entries }),
            },
        }
    }
}

/// A layout as read from its node, before monitor names are resolved.
#[derive(Debug)]
pub struct LayoutIn {
    pub name: String,
    pub matches: Vec<String>,
    pub layout: Vec<(String, MonConfig)>,
}

impl View for LayoutIn {
    type V = LayoutSpec;

    open spec fn view(&self) -> LayoutSpec {
        LayoutSpec { name: self.name, matches: self.matches@, layout: self.layout@ }
    }
}

proof fn lemma_layout_error_sticks(children: Seq<Node>, n: int)
    requires
        0 <= n <= children.len(),
        layout_body(children.take(n)) is Err,
    ensures
        layout_body(children) == layout_body(children.take(n)),
    decreases children.len() - n,
{
    if n < children.len() {
        assert(children.take(n + 1).drop_last() =~= children.take(n));
        lemma_layout_error_sticks(children, n + 1);
    } else {
        assert(children.take(n) =~= children);
    }
}

proof fn lemma_no_strings_sticks(vals: Seq<Value>, n: int)
    requires
        0 <= n <= vals.len(),
        string_values(vals.take(n)) is None,
    ensures
        string_values(vals) is None,
    decreases vals.len() - n,
{
    if n < vals.len() {
        assert(vals.take(n + 1).drop_last() =~= vals.take(n));
        lemma_no_strings_sticks(vals, n + 1);
    } else {
        assert(vals.take(n) =~= vals);
    }
}

fn string_values_of(vals: &Vec<Value>) -> (r: Option<Vec<String>>)
    ensures
        match r {
            Some(v) => string_values(vals@) == Some(v@),
            None => string_values(vals@) is None,
        },
{
    let mut out: Vec<String> = Vec::new();
    let mut i: usize = 0;
    while i < vals.len()
        invariant
            0 <= i <= vals@.len(),
            string_values(vals@.take(i as int)) == Some(out@),
        decreases vals@.len() - i,
    {
        assert(vals@.take(i + 1).drop_last() =~= vals@.take(i as int));
        match &vals[i] {
            Value::String(s) => out.push(s.clone()),
            _ => {
                proof {
                    lemma_no_strings_sticks(vals@, i + 1);
                }
                return None;
            },
        }
        i += 1;
    }
    assert(vals@.take(i as int) =~= vals@);
    Some(out)
}

impl LayoutIn {
    /// Reads a `layout` node.
    pub fn from_node(n: &Node) -> (r: Result<LayoutIn, Error>)
        ensures
            match r {
                Ok(l) => layout_of(*n) == Ok::<LayoutSpec, Error>(l@),
                Err(e) => layout_of(*n) == Err::<LayoutSpec, Error>(e),
            },
    {
        proof {
            reveal_strlit("layout");
            reveal_strlit("monitor");
            reveal_strlit("matches");
        }
        if !str_eq(n.name.as_str(), "layout") {
            return Err(Error::NodeTypeMismatch("layout", n.name.clone()));
        }
        let name = get_name(n, "layout")?;
        let mut layout: Vec<(String, MonConfig)> = Vec::new();
        let mut matches: Option<Vec<String>> = None;
        let mut i: usize = 0;
        while i < n.children.len()
            invariant
                0 <= i <= n.children@.len(),
                n.name@ == "layout"@,
                name_field(*n, "layout") == Ok::<String, Error>(name),
                layout_body(n.children@.take(i as int)) == Ok::<(Seq<(String, MonConfig)>, Option<Seq<String>>), Error>(
                    (
                        layout@,
                        match matches {
                            Some(m) => Some(m@),
                            None => None,
                        },
                    ),
                ),
            decreases n.children@.len() - i,
        {
            let ghost cs = n.children@;
            assert(cs.take(i + 1).drop_last() =~= cs.take(i as int));
            assert(cs.take(i + 1).last() == cs[i as int]);
            let node = &n.children[i];
            if str_eq(node.name.as_str(), "monitor") {
                match MonConfig::from_node(node) {
                    Ok(mc) => layout.push(mc),
                    Err(e) => {
                        proof {
                            lemma_layout_error_sticks(cs, i + 1);
                        }
                        return Err(e);
                    },
                }
            } else if str_eq(node.name.as_str(), "matches") {
                if matches.is_some() {
                    proof {
                        lemma_layout_error_sticks(cs, i + 1);
                    }
                    return Err(Error::DuplicateSingleton("layout.matches"));
                }
                match string_values_of(&node.values) {
                    Some(v) => matches = Some(v),
                    None => {
                        proof {
                            lemma_layout_error_sticks(cs, i + 1);
                        }
                        return Err(Error::FieldTypeMisMatch("matches", "String"));
                    },
                }
            } else {
                proof {
                    lemma_layout_error_sticks(cs, i + 1);
                }
                return Err(Error::Unexpected(node.name.clone()));
            }
            i += 1;
        }
        assert(n.children@.take(i as int) =~= n.children@);
        match matches {
            Some(matches) => Ok(LayoutIn { name, matches, layout }),
            None => Err(Error::MissingField("layout", "matches")),
        }
    }
}

} // verus!
