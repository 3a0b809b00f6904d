//! Resolves front matter whose values refer to each other.
//!
//! One round encodes the header text, has it parsed as structured data,
//! restores the hidden expressions in the parsed values, merges the top-level
//! keys into the context and has the header text rendered against the
//! context. The rounds end when a rendering reproduces the header text, or
//! fail when the limit on the number of rounds is reached. Parsing and
//! rendering are done by the caller: the resolver says what it asks for and
//! takes what came back.
use crate::context::{merged, Context};
use crate::guard::{encode, encode_spec, DecodeError};
use crate::splitter::{body_of, header_of, join_lines, joined, split_document, texts};
use crate::value::{decode_entries, decode_value, pairs, Tree, Value};
use vstd::prelude::*;
use vstd::string::*;

verus! {

/// The number of rounds allowed where the caller names none.
pub const DEFAULT_MAX_ROUNDS: usize = 64;

/// Why the front matter could not be resolved.
#[derive(Debug, PartialEq, Eq)]
pub enum ResolveError {
    /// The encoded header is not valid structured data, or its root is not a
    /// mapping. Holds the parser's message.
    YamlParse(String),
    /// A marker-wrapped run holds a malformed payload.
    Decode(DecodeError),
    /// The engine could not render the header. Holds the engine's message.
    EngineRender(String),
    /// The header text still changed in the last round allowed.
    DidNotConverge,
}

/// Where the resolver stands.
#[derive(Debug, PartialEq, Eq)]
pub enum Stage {
    /// The encoded header is to be parsed.
    Parsing,
    /// The header is to be rendered against the context.
    Rendering,
    /// The context is final.
    Resolved,
    /// The resolution has failed.
    Failed(ResolveError),
}

/// What the resolver asks of its caller.
#[derive(Debug, PartialEq, Eq)]
pub enum Request {
    /// Parse this text as structured data and hand the value to `parsed`.
    Parse(String),
    /// Render this text against the context and hand the text to `rendered`.
    Render(String),
    /// Nothing: the resolver has come to its end.
    Finished,
}

/// The state of a resolution.
#[derive(Debug)]
pub struct Resolver {
    /// The header text of the current round.
    pub header: String,
    /// The values gathered so far.
    pub context: Context,
    /// The number of renderings done.
    pub rounds: usize,
    /// The number of renderings allowed.
    pub limit: usize,
    pub stage: Stage,
}

/// The message of the error for a parsed value that is not a mapping.
pub open spec fn root_message() -> Seq<char> {
    "front matter is not a mapping"@
}

impl Resolver {
    /// The rounds done never exceed the limit; while work is pending at least
    /// one more round is allowed; and the resolution has failed as not
    /// converging only with all rounds used up.
    pub open spec fn wf(&self) -> bool {
        &&& self.rounds <= self.limit
        &&& (self.stage is Parsing || self.stage is Rendering) ==> self.rounds < self.limit
        &&& self.stage == Stage::Failed(ResolveError::DidNotConverge) ==> self.rounds
            == self.limit
    }

    /// Begins the resolution of `header` with at most `limit` rounds.
    ///
    /// Without a header there is nothing to resolve: the context is empty and
    /// final. With a header and no round allowed the resolution fails at once.
    pub fn start(header: Option<String>, limit: usize) -> (r: Resolver)
        ensures
            r.wf(),
            r.rounds == 0,
            r.limit == limit,
            r.context@ == Map::<Seq<char>, Tree>::empty(),
            match header {
                None => r.stage is Resolved && r.header@ == Seq::<char>::empty(),
                Some(h) => r.header@ == h@ && if limit == 0 {
                    r.stage == Stage::Failed(ResolveError::DidNotConverge)
                } else {
                    r.stage is Parsing
                },
            },
    {
        match header {
            None => Resolver {
                header: String::new(),
                context: Context::new(),
                rounds: 0,
                limit,
                stage: Stage::Resolved,
            },
            Some(h) => {
                let stage = if limit == 0 {
                    Stage::Failed(ResolveError::DidNotConverge)
                } else {
                    Stage::Parsing
                };
                Resolver { header: h, context: Context::new(), rounds: 0, limit, stage }
            },
        }
    }

    /// What the caller is to do next.
    ///
    /// While parsing is pending, the text to parse is the header with its
    /// expressions hidden. While rendering is pending, the text to render is
    /// the header itself.
    pub fn request(&self) -> (req: Request)
        ensures
            match self.stage {
                Stage::Parsing => req matches Request::Parse(t) && t@ == encode_spec(
                    self.header@,
                ),
                Stage::Rendering => req matches Request::Render(t) && t@ == self.header@,
                _ => req is Finished,
            },
    {
        match &self.stage {
            Stage::Parsing => Request::Parse(encode(self.header.as_str())),
            Stage::Rendering => Request::Render(self.header.clone()),
            _ => Request::Finished,
        }
    }

    /// Takes the outcome of parsing the encoded header.
    ///
    /// A parser's error, or a value that is not a mapping, fails the
    /// resolution as a parse error. In a mapping the hidden expressions are
    /// restored and every top-level key is bound in the context, a later key
    /// in place of an earlier one; a malformed payload fails the resolution
    /// and leaves the context as it was. Outside the parsing stage nothing
    /// changes.
    pub fn parsed(&mut self, outcome: Result<Value, String>)
        requires
            old(self).wf(),
        ensures
            final(self).wf(),
            final(self).header == old(self).header,
            final(self).rounds == old(self).rounds,
            final(self).limit == old(self).limit,
            !(old(self).stage is Parsing) ==> *final(self) == *old(self),
            old(self).stage is Parsing ==> match outcome {
                Err(msg) => final(self).stage matches Stage::Failed(ResolveError::YamlParse(m))
                    && m@ == msg@ && final(self).context@ == old(self).context@,
                Ok(v) => match v@ {
                    Tree::Mapping(entries) => match decode_entries(entries, entries.len() as int) {
                        Ok(restored) => final(self).stage is Rendering && final(self).context@
                            == merged(old(self).context@, restored, restored.len() as int),
                        Err(e) => final(self).stage == Stage::Failed(ResolveError::Decode(e))
                            && final(self).context@ == old(self).context@,
                    },
                    _ => final(self).stage matches Stage::Failed(ResolveError::YamlParse(m))
                        && m@ == root_message() && final(self).context@ == old(self).context@,
                },
            },
    {
        match &self.stage {
            Stage::Parsing => {},
            _ => {
                return ;
            },
        }
        match outcome {
            Err(msg) => {
                self.stage = Stage::Failed(ResolveError::YamlParse(msg));
            },
            Ok(v) => match &v {
                Value::Mapping(_) => match decode_value(&v) {
                    Err(e) => {
                        self.stage = Stage::Failed(ResolveError::Decode(e));
                    },
                    Ok(restored) => match &restored {
                        Value::Mapping(entries) => {
                            assert(restored@->Mapping_0 =~= pairs(entries@));
                            self.context.merge(entries);
                            self.stage = Stage::Rendering;
                        },
                        _ => {
                            assert(!(restored@ is Mapping));
                        },
                    },
                },
                _ => {
                    self.stage = Stage::Failed(
                        ResolveError::YamlParse(String::from_str("front matter is not a mapping")),
                    );
                },
            },
        }
    }

    /// Takes the outcome of rendering the header.
    ///
    /// An engine's error fails the resolution. A text equal to the header
    /// ends it: the context is final. Any other text becomes the header of
    /// the next round, unless the round just done was the last one allowed:
    /// then the resolution fails as not converging. Outside the rendering
    /// stage nothing changes.
    pub fn rendered(&mut self, outcome: Result<String, String>)
        requires
            old(self).wf(),
        ensures
            final(self).wf(),
            final(self).limit == old(self).limit,
            final(self).context == old(self).context,
            !(old(self).stage is Rendering) ==> *final(self) == *old(self),
            old(self).stage is Rendering ==> match outcome {
                Err(msg) => final(self).stage matches Stage::Failed(
                    ResolveError::EngineRender(m),
                ) && m@ == msg@ && final(self).header == old(self).header && final(self).rounds
                    == old(self).rounds,
                Ok(text) => final(self).rounds == old(self).rounds + 1 && if text@ == old(
                    self,
                ).header@ {
                    final(self).stage is Resolved && final(self).header@ == old(self).header@
                } else if old(self).rounds + 1 >= old(self).limit {
                    final(self).stage == Stage::Failed(ResolveError::DidNotConverge)
                        && final(self).header@ == old(self).header@
                } else {
                    final(self).stage is Parsing && final(self).header@ == text@
                },
            },
    {
        match &self.stage {
            Stage::Rendering => {},
            _ => {
                return ;
            },
        }
        match outcome {
            Err(msg) => {
                self.stage = Stage::Failed(ResolveError::EngineRender(msg));
            },
            Ok(text) => {
                self.rounds = self.rounds + 1;
                if text == self.header {
                    self.stage = Stage::Resolved;
                } else if self.rounds >= self.limit {
                    self.stage = Stage::Failed(ResolveError::DidNotConverge);
                } else {
                    self.header = text;
                    self.stage = Stage::Parsing;
                }
            },
        }
    }

    /// An upper bound on the number of outcomes that the resolver still
    /// takes before it comes to its end.
    pub open spec fn steps_left(&self) -> int {
        match self.stage {
            Stage::Parsing => 2 * (self.limit - self.rounds),
            Stage::Rendering => 2 * (self.limit - self.rounds) - 1,
            _ => 0,
        }
    }

    /// Runs the rounds to their end, with `parse` as the parser of
    /// structured data and `render` as the template engine.
    ///
    /// Whatever the two return, the run ends after at most `limit`
    /// renderings, resolved or failed, and it ends resolved only after a
    /// rendering. A resolver that is at its end already is returned as it
    /// is, and neither `parse` nor `render` is called.
    pub fn run<P, R>(self, parse: &P, render: &R) -> (done: Resolver) where
        P: Fn(String) -> Result<Value, String>,
        R: Fn(String, &Context) -> Result<String, String>,

        requires
            self.wf(),
            forall|text: String| parse.requires((text,)),
            forall|text: String, context: &Context| render.requires((text, context)),
        ensures
            done.wf(),
            done.limit == self.limit,
            self.rounds <= done.rounds <= self.limit,
            done.stage is Resolved || done.stage is Failed,
            (self.stage is Resolved || self.stage is Failed) ==> done == self,
            (done.stage is Resolved && !(self.stage is Resolved)) ==> done.rounds > self.rounds,
    {
        let mut r = self;
        loop
            invariant
                r.wf(),
                r.limit == self.limit,
                self.rounds <= r.rounds,
                (self.stage is Resolved || self.stage is Failed) ==> r == self,
                (r.stage is Resolved && !(self.stage is Resolved)) ==> r.rounds > self.rounds,
                forall|text: String| parse.requires((text,)),
                forall|text: String, context: &Context| render.requires((text, context)),
            decreases r.steps_left(),
        {
            match r.request() {
                Request::Parse(encoded) => {
                    let outcome = parse(encoded);
                    r.parsed(outcome);
                },
                Request::Render(text) => {
                    let outcome = render(text, &r.context);
                    r.rendered(outcome);
                },
                Request::Finished => {
                    return r;
                },
            }
        }
    }

    /// Tells whether the context is final.
    pub fn is_resolved(&self) -> (yes: bool)
        ensures
            yes == (self.stage is Resolved),
    {
        match &self.stage {
            Stage::Resolved => true,
            _ => false,
        }
    }
}

/// A document made ready: the resolver of its front matter and its body text.
#[derive(Debug)]
pub struct Prepared {
    pub resolver: Resolver,
    pub body: String,
}

/// Splits a document and begins the resolution of its front matter.
///
/// The header text is the front-matter lines joined by line feeds, the body
/// text the body lines joined likewise. A document without front matter
/// yields a resolver that is resolved from the start, with an empty context.
pub fn prepare(lines: &Vec<String>, limit: usize) -> (p: Prepared)
    ensures
        p.body@ == joined(body_of(texts(lines@))),
        p.resolver.wf(),
        p.resolver.rounds == 0,
        p.resolver.limit == limit,
        p.resolver.context@ == Map::<Seq<char>, Tree>::empty(),
        match header_of(texts(lines@)) {
            None => p.resolver.stage is Resolved,
            Some(h) => p.resolver.header@ == joined(h) && if limit == 0 {
                p.resolver.stage == Stage::Failed(ResolveError::DidNotConverge)
            } else {
                p.resolver.stage is Parsing
            },
        },
{
    let doc = split_document(lines);
    let body = join_lines(&doc.body);
    let header = match &doc.header {
        Some(h) => Some(join_lines(h)),
        None => None,
    };
    Prepared { resolver: Resolver::start(header, limit), body }
}

} // verus!
