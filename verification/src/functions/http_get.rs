//! The parts of the HTTP fetch function that surround the network call: what
//! is fetched, and the value that the answer becomes.
use crate::context::Context;
use crate::value::{Entry, Pair, Tree, Value};
use vstd::prelude::*;
use vstd::string::*;

verus! {

/// One header of an answer: its name and its value.
#[derive(Debug, PartialEq, Eq)]
pub struct Header {
    pub name: String,
    pub value: String,
}

/// The headers as the entries of a mapping, each value a text.
pub open spec fn header_pairs(headers: Seq<Header>) -> Seq<Pair> {
    Seq::new(
        headers.len(),
        |i: int| Pair { key: headers[i].name@, value: Tree::Text(headers[i].value@) },
    )
}

/// The value that an answer becomes: a mapping of `url`, `text` and `headers`.
pub open spec fn response_tree(url: Seq<char>, text: Seq<char>, headers: Seq<Header>) -> Tree {
    Tree::Mapping(
        seq![
            Pair { key: "url"@, value: Tree::Text(url) },
            Pair { key: "text"@, value: Tree::Text(text) },
            Pair { key: "headers"@, value: Tree::Mapping(header_pairs(headers)) },
        ],
    )
}

/// The address that the named arguments give: the text bound to `url`.
pub open spec fn url_of(args: Map<Seq<char>, Tree>) -> Option<Seq<char>> {
    if args.contains_key("url"@) {
        match args["url"@] {
            Tree::Text(u) => Some(u),
            _ => None,
        }
    } else {
        None
    }
}

/// Why nothing can be fetched.
#[derive(Debug, Clone, Copy, PartialEq, Eq, Structural)]
pub enum HttpGetError {
    /// No text is bound to `url`.
    UrlMissing,
}

/// The fetch function with the address it was given, if any.
#[derive(Default, Debug)]
pub struct HttpGet {
    pub url: Option<String>,
}

impl HttpGet {
    /// Reads the address from the named arguments.
    pub fn from(args: &Context) -> (get: HttpGet)
        ensures
            match url_of(args@) {
                Some(u) => get.url matches Some(s) && s@ == u,
                None => get.url is None,
            },
    {
        match args.get(&String::from_str("url")) {
            Some(Value::Text(u)) => HttpGet { url: Some(u.clone()) },
            _ => HttpGet { url: None },
        }
    }

    /// The address to fetch, or the error where none was given.
    pub fn target(&self) -> (url: Result<String, HttpGetError>)
        ensures
            match self.url {
                Some(u) => url matches Ok(s) && s@ == u@,
                None => url == Err::<String, HttpGetError>(HttpGetError::UrlMissing),
            },
    {
        match &self.url {
            Some(u) => Ok(u.clone()),
            None => Err(HttpGetError::UrlMissing),
        }
    }

    /// The value that stands for an answer.
    pub fn response(url: &str, text: &str, headers: &Vec<Header>) -> (out: Value)
        ensures
            out@ == response_tree(url@, text@, headers@),
    {
        let mut fields: Vec<Entry> = Vec::new();
        let mut i: usize = 0;
        while i < headers.len()
            invariant
                i <= headers.len(),
                fields.len() == i,
                forall|k: int|
                    0 <= k < i ==> fields[k].key@ == headers[k].name@ && fields[k].value@
                        == Tree::Text(headers[k].value@),
            decreases headers.len() - i,
        {
            fields.push(
                Entry { key: headers[i].name.clone(), value: Value::Text(headers[i].value.clone()) },
            );
            i += 1;
        }
        let header_value = Value::Mapping(fields);
        assert(header_value@->Mapping_0 =~= header_pairs(headers@));
        assert(header_value@ == Tree::Mapping(header_pairs(headers@)));
        let mut entries: Vec<Entry> = Vec::new();
        entries.push(Entry { key: String::from_str("url"), value: Value::Text(String::from_str(url)) });
        entries.push(
            Entry { key: String::from_str("text"), value: Value::Text(String::from_str(text)) },
        );
        entries.push(Entry { key: String::from_str("headers"), value: header_value });
        assert(entries[0].value@ == Tree::Text(url@));
        assert(entries[1].value@ == Tree::Text(text@));
        let out = Value::Mapping(entries);
        assert(out@->Mapping_0 =~= response_tree(url@, text@, headers@)->Mapping_0);
        out
    }
}

} // verus!
