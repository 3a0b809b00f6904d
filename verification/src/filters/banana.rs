//! A decorative filter that wraps a text in bananas.
use crate::context::Context;
use crate::value::{clone_value, Tree, Value};
use vstd::prelude::*;
use vstd::string::*;

verus! {

/// The character that the filter wraps a text in.
pub open spec fn peel() -> char {
    '\u{1F34C}'
}

/// The text wrapped `n` times, each wrapping around the one before.
pub open spec fn wrapped(text: Seq<char>, n: nat) -> Seq<char>
    decreases n,
{
    if n == 0 {
        text
    } else {
        seq![peel()] + wrapped(text, (n - 1) as nat) + seq![peel()]
    }
}

/// The number of wrappings that the named arguments ask for: one where
/// `count` is not given, none for a negative count, and nothing where `count`
/// is not an integer.
pub open spec fn count_of(args: Map<Seq<char>, Tree>) -> Option<nat> {
    if !args.contains_key("count"@) {
        Some(1)
    } else {
        match args["count"@] {
            Tree::Integer(c) => Some(if c < 0 { 0 } else { c as nat }),
            _ => None,
        }
    }
}

/// Why the filter refused its arguments.
#[derive(Debug, Clone, Copy, PartialEq, Eq, Structural)]
pub enum BananaError {
    /// `count` is bound to something that is not an integer.
    CountNotInteger,
}

/// The banana filter.
#[derive(Default, Debug)]
pub struct Banana {}

impl Banana {
    /// Wraps a text `count` times; any other value passes through unchanged.
    pub fn filter(&self, value: &Value, args: &Context) -> (out: Result<Value, BananaError>)
        ensures
            match count_of(args@) {
                None => out == Err::<Value, BananaError>(BananaError::CountNotInteger),
                Some(n) => out matches Ok(v) && v@ == match value@ {
                    Tree::Text(t) => Tree::Text(wrapped(t, n)),
                    other => other,
                },
            },
    {
        let count: i64 = match args.get(&String::from_str("count")) {
            None => 1,
            Some(Value::Integer(c)) => *c,
            Some(_) => {
                return Err(BananaError::CountNotInteger);
            },
        };
        match value {
            Value::Text(text) => {
                let mut bananas = text.clone();
                let mut done: i64 = 0;
                while done < count
                    invariant
                        0 <= done,
                        count >= 0 ==> done <= count,
                        count < 0 ==> done == 0,
                        bananas@ == wrapped(text@, done as nat),
                    decreases count - done,
                {
                    proof {
                        reveal_strlit("\u{1F34C}");
                        assert("\u{1F34C}"@ =~= seq![peel()]);
                    }
                    let mut next = String::from_str("\u{1F34C}");
                    next.append(bananas.as_str());
                    next.append("\u{1F34C}");
                    bananas = next;
                    done += 1;
                }
                Ok(Value::Text(bananas))
            },
            _ => Ok(clone_value(value)),
        }
    }
}

} // verus!
