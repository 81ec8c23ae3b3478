//! Named values that are stored beside vectors and graph nodes.

use vstd::prelude::*;

use crate::text::strs;

verus! {

broadcast use vstd::string::group_string_axioms;

/// A stored value.
#[derive(Clone, Debug)]
pub enum MetaValue {
    Text(String),
    Texts(Vec<String>),
    Count(u64),
    Int(i64),
    /// The bits of a double-precision number, which is only carried along.
    Float(u64),
    Flag(bool),
    Nothing,
}

/// What a stored value is, as a mathematical value.
#[verifier::ext_equal]
pub enum MetaModel {
    Text(Seq<char>),
    Texts(Seq<Seq<char>>),
    Count(nat),
    Int(int),
    Float(u64),
    Flag(bool),
    Nothing,
}

impl View for MetaValue {
    type V = MetaModel;

    open spec fn view(&self) -> MetaModel {
        match self {
            MetaValue::Text(s) => MetaModel::Text(s@),
            MetaValue::Texts(v) => MetaModel::Texts(strs(v@)),
            MetaValue::Count(n) => MetaModel::Count(*n as nat),
            MetaValue::Int(n) => MetaModel::Int(*n as int),
            MetaValue::Float(b) => MetaModel::Float(*b),
            MetaValue::Flag(b) => MetaModel::Flag(*b),
            MetaValue::Nothing => MetaModel::Nothing,
        }
    }
}

/// A name and its value.
#[derive(Clone, Debug)]
pub struct Field {
    pub name: &'static str,
    pub value: MetaValue,
}

/// The names and values of a list of fields.
pub open spec fn field_views(fields: Seq<Field>) -> Seq<(Seq<char>, MetaModel)> {
    fields.map_values(|f: Field| (f.name@, f.value@))
}

/// A text field.
pub fn text_field(name: &'static str, text: &str) -> (r: Field)
    ensures
        r.name@ == name@,
        r.value@ == MetaModel::Text(text@),
{
    Field { name, value: MetaValue::Text(text.to_owned()) }
}

/// A field that may be missing its value.
pub fn optional_field(name: &'static str, text: &Option<String>) -> (r: Field)
    ensures
        r.name@ == name@,
        r.value@ == optional_text(crate::conversion::opt_view(*text)),
{
    match text {
        Some(s) => text_field(name, s.as_str()),
        None => Field { name, value: MetaValue::Nothing },
    }
}

/// An optional text as a stored value.
pub open spec fn optional_text(text: Option<Seq<char>>) -> MetaModel {
    match text {
        Some(s) => MetaModel::Text(s),
        None => MetaModel::Nothing,
    }
}

/// A number field.
pub fn count_field(name: &'static str, n: u64) -> (r: Field)
    ensures
        r.name@ == name@,
        r.value@ == MetaModel::Count(n as nat),
{
    Field { name, value: MetaValue::Count(n) }
}

/// A signed number, or nothing.
pub open spec fn optional_int(n: Option<i32>) -> MetaModel {
    match n {
        Some(k) => MetaModel::Int(k as int),
        None => MetaModel::Nothing,
    }
}

/// A field with a signed number, or without one.
pub fn int_field(name: &'static str, n: Option<i32>) -> (r: Field)
    ensures
        r.name@ == name@,
        r.value@ == optional_int(n),
{
    match n {
        Some(k) => Field { name, value: MetaValue::Int(k as i64) },
        None => Field { name, value: MetaValue::Nothing },
    }
}

/// A field with a number that is only carried along.
pub fn float_field(name: &'static str, bits: u64) -> (r: Field)
    ensures
        r.name@ == name@,
        r.value@ == MetaModel::Float(bits),
{
    Field { name, value: MetaValue::Float(bits) }
}

/// A truth value.
pub fn flag_field(name: &'static str, b: bool) -> (r: Field)
    ensures
        r.name@ == name@,
        r.value@ == MetaModel::Flag(b),
{
    Field { name, value: MetaValue::Flag(b) }
}

/// A field with one text in a list.
pub fn single_field(name: &'static str, text: &str) -> (r: Field)
    ensures
        r.name@ == name@,
        r.value@ == MetaModel::Texts(seq![text@]),
{
    let list = vec![text.to_owned()];
    assert(strs(list@) =~= seq![text@]);
    Field { name, value: MetaValue::Texts(list) }
}

/// A copy of a list of texts.
pub fn copy_texts(v: &Vec<String>) -> (r: Vec<String>)
    ensures
        strs(r@) == strs(v@),
{
    let mut r: Vec<String> = Vec::new();
    let mut i: usize = 0;
    while i < v.len()
        invariant
            i <= v@.len(),
            strs(r@) == strs(v@).take(i as int),
        decreases v.len() - i,
    {
        let ghost before = strs(r@);
        r.push(v[i].clone());
        assert(strs(r@) =~= before.push(v@[i as int]@));
        assert(strs(v@).take(i + 1) =~= strs(v@).take(i as int).push(strs(v@)[i as int]));
        i = i + 1;
    }
    assert(strs(v@).take(i as int) =~= strs(v@));
    r
}

/// A field with a list of texts.
pub fn texts_field(name: &'static str, texts: &Vec<String>) -> (r: Field)
    ensures
        r.name@ == name@,
        r.value@ == MetaModel::Texts(strs(texts@)),
{
    Field { name, value: MetaValue::Texts(copy_texts(texts)) }
}

} // verus!
