//! Splits a document into its front-matter block and its body.
use vstd::prelude::*;
use vstd::string::*;

verus! {

/// The text of the line that opens and closes a front-matter block.
pub open spec fn delimiter() -> Seq<char> {
    seq!['-', '-', '-']
}

/// The lines of a document as plain texts.
pub open spec fn texts(lines: Seq<String>) -> Seq<Seq<char>> {
    Seq::new(lines.len(), |i: int| lines[i]@)
}

/// Index of the first delimiter line at or after `from`, or the number of
/// lines if there is none.
pub open spec fn next_delimiter(lines: Seq<Seq<char>>, from: int) -> int
    decreases lines.len() - from,
{
    if from < 0 || from >= lines.len() {
        lines.len() as int
    } else if lines[from] == delimiter() {
        from
    } else {
        next_delimiter(lines, from + 1)
    }
}

/// The positions of the opening and the closing delimiter line, if both exist.
pub open spec fn front_matter(lines: Seq<Seq<char>>) -> Option<(int, int)> {
    let begin = next_delimiter(lines, 0);
    let end = next_delimiter(lines, begin + 1);
    if begin < lines.len() && end < lines.len() {
        Some((begin, end))
    } else {
        None
    }
}

/// The lines strictly between the two delimiter lines, if both exist.
pub open spec fn header_of(lines: Seq<Seq<char>>) -> Option<Seq<Seq<char>>> {
    match front_matter(lines) {
        Some((begin, end)) => Some(lines.subrange(begin + 1, end)),
        None => None,
    }
}

/// The lines after the closing delimiter, or all lines without front matter.
pub open spec fn body_of(lines: Seq<Seq<char>>) -> Seq<Seq<char>> {
    match front_matter(lines) {
        Some((begin, end)) => lines.subrange(end + 1, lines.len() as int),
        None => lines,
    }
}

/// The lines joined by single line feeds, without a trailing one.
pub open spec fn joined(lines: Seq<Seq<char>>) -> Seq<char>
    decreases lines.len(),
{
    if lines.len() == 0 {
        Seq::empty()
    } else if lines.len() == 1 {
        lines[0]
    } else {
        joined(lines.drop_last()) + seq!['\n'] + lines.last()
    }
}

/// A document divided into front matter and body.
#[derive(Debug, PartialEq, Eq)]
pub struct Document {
    pub header: Option<Vec<String>>,
    pub body: Vec<String>,
}

/// Between `from` and the next delimiter no line is a delimiter, and the line
/// found is one.
pub proof fn lemma_next_delimiter(lines: Seq<Seq<char>>, from: int)
    requires
        0 <= from <= lines.len(),
    ensures
        from <= next_delimiter(lines, from) <= lines.len(),
        next_delimiter(lines, from) < lines.len() ==> lines[next_delimiter(lines, from)]
            == delimiter(),
        forall|k: int| from <= k < next_delimiter(lines, from) ==> lines[k] != delimiter(),
    decreases lines.len() - from,
{
    if from < lines.len() && lines[from] != delimiter() {
        lemma_next_delimiter(lines, from + 1);
    }
}

/// A document without any delimiter line has no front matter, and all of it
/// is body.
pub proof fn lemma_no_delimiter_is_all_body(lines: Seq<Seq<char>>)
    requires
        forall|k: int| 0 <= k < lines.len() ==> lines[k] != delimiter(),
    ensures
        header_of(lines) is None,
        body_of(lines) == lines,
{
    lemma_next_delimiter(lines, 0);
}

/// A document with an opening delimiter that is never closed has no front
/// matter, and all of it is body.
pub proof fn lemma_unclosed_is_all_body(lines: Seq<Seq<char>>, begin: int)
    requires
        0 <= begin < lines.len(),
        forall|k: int| 0 <= k < lines.len() && k != begin ==> lines[k] != delimiter(),
    ensures
        header_of(lines) is None,
        body_of(lines) == lines,
{
    lemma_next_delimiter(lines, 0);
    let b = next_delimiter(lines, 0);
    if b < lines.len() {
        lemma_next_delimiter(lines, b + 1);
    }
}

/// Finds the first delimiter line at or after `from`.
pub fn find_delimiter(lines: &Vec<String>, from: usize) -> (at: usize)
    requires
        from <= lines.len(),
    ensures
        at == next_delimiter(texts(lines@), from as int),
        from <= at <= lines.len(),
{
    let mark = String::from_str("---");
    proof {
        reveal_strlit("---");
        assert(mark@ =~= delimiter());
    }
    let mut i: usize = from;
    while i < lines.len()
        invariant
            from <= i <= lines.len(),
            mark@ == delimiter(),
            next_delimiter(texts(lines@), from as int) == next_delimiter(texts(lines@), i as int),
        decreases lines.len() - i,
    {
        if lines[i] == mark {
            return i;
        }
        i += 1;
    }
    i
}

/// Copies the lines from `from` up to `to`.
pub fn copy_lines(lines: &Vec<String>, from: usize, to: usize) -> (out: Vec<String>)
    requires
        from <= to <= lines.len(),
    ensures
        texts(out@) == texts(lines@).subrange(from as int, to as int),
{
    let mut out: Vec<String> = Vec::new();
    let mut i: usize = from;
    while i < to
        invariant
            from <= i <= to <= lines.len(),
            out@.len() == i - from,
            forall|k: int| 0 <= k < out@.len() ==> out@[k]@ == lines@[from + k]@,
        decreases to - i,
    {
        let line = lines[i].clone();
        out.push(line);
        i += 1;
    }
    assert(texts(out@) =~= texts(lines@).subrange(from as int, to as int));
    out
}

/// Divides a document at its first pair of delimiter lines.
///
/// With both delimiters present the header holds the lines strictly between
/// them and the body the lines after the second. Otherwise there is no header
/// and the body is the whole document. Later delimiter lines stay in the body.
pub fn split_document(lines: &Vec<String>) -> (doc: Document)
    ensures
        match doc.header {
            Some(h) => header_of(texts(lines@)) == Some(texts(h@)),
            None => header_of(texts(lines@)) is None,
        },
        texts(doc.body@) == body_of(texts(lines@)),
{
    let n = lines.len();
    let begin = find_delimiter(lines, 0);
    if begin < n {
        let end = find_delimiter(lines, begin + 1);
        if end < n {
            let header = copy_lines(lines, begin + 1, end);
            let body = copy_lines(lines, end + 1, n);
            return Document { header: Some(header), body };
        }
    }
    let body = copy_lines(lines, 0, n);
    assert(texts(lines@).subrange(0, n as int) =~= texts(lines@));
    Document { header: None, body }
}

/// Joins lines with single line feeds.
pub fn join_lines(lines: &Vec<String>) -> (text: String)
    ensures
        text@ == joined(texts(lines@)),
{
    let mut text = String::new();
    let mut i: usize = 0;
    while i < lines.len()
        invariant
            i <= lines.len(),
            text@ == joined(texts(lines@).subrange(0, i as int)),
        decreases lines.len() - i,
    {
        proof {
            let next = texts(lines@).subrange(0, i + 1);
            assert(next.drop_last() =~= texts(lines@).subrange(0, i as int));
            assert(next.last() == lines@[i as int]@);
            reveal_strlit("\n");
            assert("\n"@ =~= seq!['\n']);
        }
        if i > 0 {
            text.append("\n");
        }
        text.append(lines[i].as_str());
        i += 1;
    }
    assert(texts(lines@).subrange(0, lines.len() as int) =~= texts(lines@));
    text
}

} // verus!
