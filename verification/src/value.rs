//! Structured values of the front matter, and the restoring of hidden
//! expressions inside them.
use crate::guard::{decode, decode_spec, DecodeError};
use vstd::prelude::*;
use vstd::string::*;

verus! {

/// One key of a mapping with its value.
#[derive(Debug, PartialEq, Eq)]
pub struct Entry {
    pub key: String,
    pub value: Value,
}

/// A structured value. A number that fits a signed 64-bit integer is held as
/// one, any other number as its literal text.
#[derive(Debug, PartialEq, Eq)]
pub enum Value {
    Null,
    Bool(bool),
    Integer(i64),
    Number(String),
    Text(String),
    Sequence(Vec<Value>),
    Mapping(Vec<Entry>),
}

/// One key of a mapping with its value, as mathematical data.
pub struct Pair {
    pub key: Seq<char>,
    pub value: Tree,
}

/// A structured value as mathematical data.
pub enum Tree {
    Null,
    Bool(bool),
    Integer(int),
    Number(Seq<char>),
    Text(Seq<char>),
    Sequence(Seq<Tree>),
    Mapping(Seq<Pair>),
}

impl View for Value {
    type V = Tree;

    open spec fn view(&self) -> Tree
        decreases self,
    {
        match self {
            Value::Null => Tree::Null,
            Value::Bool(b) => Tree::Bool(*b),
            Value::Integer(i) => Tree::Integer(*i as int),
            Value::Number(n) => Tree::Number(n@),
            Value::Text(t) => Tree::Text(t@),
            Value::Sequence(items) => Tree::Sequence(
                Seq::new(
                    items.len() as nat,
                    |i: int|
                        if 0 <= i < items.len() {
                            items[i]@
                        } else {
                            Tree::Null
                        },
                ),
            ),
            Value::Mapping(entries) => Tree::Mapping(
                Seq::new(
                    entries.len() as nat,
                    |i: int|
                        if 0 <= i < entries.len() {
                            Pair { key: entries[i].key@, value: entries[i].value@ }
                        } else {
                            Pair { key: Seq::empty(), value: Tree::Null }
                        },
                ),
            ),
        }
    }
}

/// The entries of a mapping as mathematical data.
pub open spec fn pairs(entries: Seq<Entry>) -> Seq<Pair> {
    Seq::new(entries.len(), |i: int| Pair { key: entries[i].key@, value: entries[i].value@ })
}

/// The first `n` entries with their values decoded, or the error of the
/// first entry whose value cannot be decoded.
pub open spec fn decode_entries(entries: Seq<Pair>, n: int) -> Result<Seq<Pair>, DecodeError>
    decreases entries, n,
{
    if n <= 0 || n > entries.len() {
        Ok(Seq::empty())
    } else {
        match decode_entries(entries, n - 1) {
            Err(e) => Err(e),
            Ok(front) => match decode_tree(entries[n - 1].value) {
                Err(e) => Err(e),
                Ok(v) => Ok(front.push(Pair { key: entries[n - 1].key, value: v })),
            },
        }
    }
}

/// The value with the hidden expressions restored: in a text, and in the
/// values of a mapping, at any depth of mappings. The elements of a sequence
/// and all other values stay as they are.
pub open spec fn decode_tree(t: Tree) -> Result<Tree, DecodeError>
    decreases t, 0int,
{
    match t {
        Tree::Text(s) => match decode_spec(s) {
            Ok(restored) => Ok(Tree::Text(restored)),
            Err(e) => Err(e),
        },
        Tree::Mapping(entries) => match decode_entries(entries, entries.len() as int) {
            Ok(restored) => Ok(Tree::Mapping(restored)),
            Err(e) => Err(e),
        },
        _ => Ok(t),
    }
}

/// Copies a value.
#[verifier::loop_isolation(false)]
pub fn clone_value(v: &Value) -> (out: Value)
    ensures
        out@ == v@,
    decreases v,
{
    match v {
        Value::Null => Value::Null,
        Value::Bool(b) => Value::Bool(*b),
        Value::Integer(i) => Value::Integer(*i),
        Value::Number(n) => Value::Number(n.clone()),
        Value::Text(t) => Value::Text(t.clone()),
        Value::Sequence(items) => {
            let mut out: Vec<Value> = Vec::new();
            let mut i: usize = 0;
            while i < items.len()
                invariant
                    i <= items.len(),
                    out.len() == i,
                    forall|k: int| 0 <= k < i ==> out[k]@ == items[k]@,
                decreases items.len() - i,
            {
                out.push(clone_value(&items[i]));
                i += 1;
            }
            let copy = Value::Sequence(out);
            assert(copy@ =~= v@) by {
                assert(copy@->Sequence_0 =~= v@->Sequence_0);
            }
            copy
        },
        Value::Mapping(entries) => {
            let mut out: Vec<Entry> = Vec::new();
            let mut i: usize = 0;
            while i < entries.len()
                invariant
                    i <= entries.len(),
                    out.len() == i,
                    forall|k: int|
                        0 <= k < i ==> out[k].key@ == entries[k].key@ && out[k].value@
                            == entries[k].value@,
                decreases entries.len() - i,
            {
                let key = entries[i].key.clone();
                let value = clone_value(&entries[i].value);
                out.push(Entry { key, value });
                i += 1;
            }
            let copy = Value::Mapping(out);
            assert(copy@ =~= v@) by {
                assert(copy@->Mapping_0 =~= v@->Mapping_0);
            }
            copy
        },
    }
}

/// Restores the hidden expressions of a parsed value.
///
/// A text is decoded; the values of a mapping are treated in turn, in nested
/// mappings too; the elements of a sequence are not visited. Fails with the
/// error of the first text, in the order of the entries, that holds a
/// malformed payload.
#[verifier::loop_isolation(false)]
pub fn decode_value(v: &Value) -> (out: Result<Value, DecodeError>)
    ensures
        match out {
            Ok(r) => decode_tree(v@) == Ok::<Tree, DecodeError>(r@),
            Err(e) => decode_tree(v@) == Err::<Tree, DecodeError>(e),
        },
    decreases v,
{
    match v {
        Value::Text(t) => match decode(t.as_str()) {
            Ok(restored) => Ok(Value::Text(restored)),
            Err(e) => Err(e),
        },
        Value::Mapping(entries) => {
            let ghost model = v@->Mapping_0;
            let mut out: Vec<Entry> = Vec::new();
            let mut i: usize = 0;
            assert(pairs(out@) =~= Seq::<Pair>::empty());
            while i < entries.len()
                invariant
                    i <= entries.len(),
                    v@ == Tree::Mapping(model),
                    model.len() == entries.len(),
                    forall|k: int|
                        0 <= k < entries.len() ==> model[k] == (Pair {
                            key: entries[k].key@,
                            value: entries[k].value@,
                        }),
                    decode_entries(model, i as int) == Ok::<Seq<Pair>, DecodeError>(pairs(out@)),
                decreases entries.len() - i,
            {
                let key = entries[i].key.clone();
                match decode_value(&entries[i].value) {
                    Err(e) => {
                        proof {
                            lemma_decode_entries_error(model, i + 1, entries.len() as int);
                        }
                        return Err(e);
                    },
                    Ok(value) => {
                        let ghost before = pairs(out@);
                        out.push(Entry { key, value });
                        assert(pairs(out@) =~= before.push(
                            Pair { key: key@, value: value@ },
                        ));
                    },
                }
                i += 1;
            }
            let restored = Value::Mapping(out);
            assert(restored@->Mapping_0 =~= pairs(out@));
            Ok(restored)
        },
        _ => Ok(clone_value(v)),
    }
}

/// An error among the first `n` entries is the error of any longer prefix.
pub proof fn lemma_decode_entries_error(entries: Seq<Pair>, n: int, m: int)
    requires
        0 <= n <= m <= entries.len(),
        decode_entries(entries, n) is Err,
    ensures
        decode_entries(entries, m) == decode_entries(entries, n),
    decreases m - n,
{
    if n < m {
        lemma_decode_entries_error(entries, n, m - 1);
    }
}

} // verus!
