//! Hides template expressions from the structured-data parser and restores
//! them afterwards.
//!
//! An expression is the text from an opening token `{{` to the first closing
//! token `}}` after it on the same line. Encoding replaces each expression by
//! a begin marker, the padding-free base64 text of the expression, and an end
//! marker. Decoding replaces each marker-wrapped run by the text that its
//! payload stands for.
use base64::Engine;
use vstd::prelude::*;
use vstd::string::*;
use vstd::utf8::*;

verus! {

/// The token that opens a template expression.
pub open spec fn open_token() -> Seq<char> {
    seq!['{', '{']
}

/// The token that closes a template expression.
pub open spec fn close_token() -> Seq<char> {
    seq!['}', '}']
}

/// The marker written before a payload: `_JINJI_ENC_BEGIN_MARK_`.
pub open spec fn begin_marker() -> Seq<char> {
    seq![
        '_', 'J', 'I', 'N', 'J', 'I', '_', 'E', 'N', 'C', '_', 'B', 'E', 'G', 'I', 'N', '_', 'M',
        'A', 'R', 'K', '_',
    ]
}

/// The marker written after a payload: `_JINJI_ENC_END_MARK_`.
pub open spec fn end_marker() -> Seq<char> {
    seq![
        '_', 'J', 'I', 'N', 'J', 'I', '_', 'E', 'N', 'C', '_', 'E', 'N', 'D', '_', 'M', 'A', 'R',
        'K', '_',
    ]
}

/// `pat` stands in `s` at position `at`.
pub open spec fn starts_at(s: Seq<char>, at: int, pat: Seq<char>) -> bool {
    0 <= at && at + pat.len() <= s.len() && s.subrange(at, at + pat.len()) == pat
}

/// Position of the first `close` at or after `from`, provided no line feed
/// stands between `from` and it.
pub open spec fn span_end(s: Seq<char>, from: int, close: Seq<char>) -> Option<int>
    decreases s.len() - from,
{
    if from < 0 || from >= s.len() {
        None
    } else if starts_at(s, from, close) {
        Some(from)
    } else if s[from] == '\n' {
        None
    } else {
        span_end(s, from + 1, close)
    }
}

/// The leftmost span at or after `from`: the position of an `open` that has a
/// `close` after it on the same line, and the position of the first such
/// `close`.
pub open spec fn first_span(s: Seq<char>, from: int, open: Seq<char>, close: Seq<char>) -> Option<
    (int, int),
>
    decreases s.len() - from,
{
    if from < 0 || from >= s.len() {
        None
    } else if starts_at(s, from, open) && span_end(s, from + open.len(), close) is Some {
        Some((from, span_end(s, from + open.len(), close)->0))
    } else {
        first_span(s, from + 1, open, close)
    }
}

/// What the padding-free standard base64 encoder returns for `bytes`.
pub uninterp spec fn base64_text(bytes: Seq<u8>) -> Seq<char>;

/// What the padding-free standard base64 decoder returns for `text`: the
/// bytes, or nothing where `text` is not such an encoding.
pub uninterp spec fn base64_bytes(text: Seq<char>) -> Option<Seq<u8>>;

/// A character of the standard base64 alphabet.
pub open spec fn is_base64_char(c: char) -> bool {
    ('A' <= c && c <= 'Z') || ('a' <= c && c <= 'z') || ('0' <= c && c <= '9') || c == '+' || c
        == '/'
}

/// The payload that stands for an expression.
pub open spec fn payload_of(expr: Seq<char>) -> Seq<char> {
    base64_text(encode_utf8(expr))
}

/// Why a payload could not be turned back into text.
#[derive(Debug, Clone, Copy, PartialEq, Eq, Structural)]
pub enum DecodeError {
    /// The payload is not padding-free standard base64.
    Payload,
    /// The payload's bytes are not UTF-8 text.
    Text,
}

/// The text that a payload stands for.
pub open spec fn text_of(payload: Seq<char>) -> Result<Seq<char>, DecodeError> {
    match base64_bytes(payload) {
        None => Err(DecodeError::Payload),
        Some(bytes) => if valid_utf8(bytes) {
            Ok(decode_utf8(bytes))
        } else {
            Err(DecodeError::Text)
        },
    }
}

/// The text with every expression replaced by its marker-wrapped payload.
pub open spec fn encode_spec(s: Seq<char>) -> Seq<char>
    decreases s.len(),
{
    match first_span(s, 0, open_token(), close_token()) {
        Some((i, j)) => if 0 <= i <= j && j + 2 <= s.len() {
            s.subrange(0, i) + begin_marker() + payload_of(s.subrange(i, j + 2)) + end_marker()
                + encode_spec(s.subrange(j + 2, s.len() as int))
        } else {
            s
        },
        None => s,
    }
}

/// The text with every marker-wrapped run replaced by the text of its
/// payload, or the error of the leftmost run whose payload has none.
pub open spec fn decode_spec(s: Seq<char>) -> Result<Seq<char>, DecodeError>
    decreases s.len(),
{
    match first_span(s, 0, begin_marker(), end_marker()) {
        Some((i, j)) => if 0 <= i && i + 22 <= j && j + 20 <= s.len() {
            match text_of(s.subrange(i + 22, j)) {
                Err(e) => Err(e),
                Ok(expr) => match decode_spec(s.subrange(j + 20, s.len() as int)) {
                    Err(e) => Err(e),
                    Ok(rest) => Ok(s.subrange(0, i) + expr + rest),
                },
            }
        } else {
            Ok(s)
        },
        None => Ok(s),
    }
}

/// Where `span_end` finds a token, the token fits into the text.
pub proof fn lemma_span_end_bounds(s: Seq<char>, from: int, close: Seq<char>)
    requires
        0 <= from,
    ensures
        span_end(s, from, close) matches Some(j) ==> from <= j && starts_at(s, j, close),
    decreases s.len() - from,
{
    if from < s.len() && !starts_at(s, from, close) && s[from] != '\n' {
        lemma_span_end_bounds(s, from + 1, close);
    }
}

/// Where `first_span` finds a span, both tokens fit into the text, the
/// closing one after the opening one.
pub proof fn lemma_first_span_bounds(s: Seq<char>, from: int, open: Seq<char>, close: Seq<char>)
    requires
        0 <= from,
    ensures
        first_span(s, from, open, close) matches Some((i, j)) ==> from <= i && starts_at(
            s,
            i,
            open,
        ) && i + open.len() <= j && starts_at(s, j, close),
    decreases s.len() - from,
{
    if from < s.len() {
        if starts_at(s, from, open) && span_end(s, from + open.len(), close) is Some {
            lemma_span_end_bounds(s, from + open.len(), close);
        } else {
            lemma_first_span_bounds(s, from + 1, open, close);
        }
    }
}

/// The position that `span_end` finds is the first `close` after `from`, on
/// the same line: before it stands neither a `close` nor a line feed. Where
/// it finds none, a line feed stands before every `close` after `from`.
pub proof fn lemma_span_end_is_first(s: Seq<char>, from: int, close: Seq<char>)
    requires
        0 <= from,
        close.len() > 0,
    ensures
        span_end(s, from, close) matches Some(j) ==> j < s.len() && forall|k: int|
            from <= k < j ==> !#[trigger] starts_at(s, k, close) && s[k] != '\n',
        span_end(s, from, close) is None ==> forall|j: int|
            from <= j && starts_at(s, j, close) ==> exists|k: int|
                from <= k < j && #[trigger] s[k] == '\n',
    decreases s.len() - from,
{
    if from < s.len() && !starts_at(s, from, close) {
        if s[from] == '\n' {
            assert forall|j: int| from <= j && starts_at(s, j, close) implies exists|k: int|
                from <= k < j && #[trigger] s[k] == '\n' by {
                assert(s[from] == '\n');
            }
        } else {
            lemma_span_end_is_first(s, from + 1, close);
            if span_end(s, from, close) is None {
                assert forall|j: int| from <= j && starts_at(s, j, close) implies exists|k: int|
                    from <= k < j && #[trigger] s[k] == '\n' by {
                    let k = choose|k: int| from + 1 <= k < j && #[trigger] s[k] == '\n';
                    assert(from <= k < j && s[k] == '\n');
                }
            }
        }
    }
}

/// The span that `first_span` finds is the leftmost: no `open` before it has
/// a `close` after it on the same line. Where it finds none, no `open` after
/// `from` has one.
pub proof fn lemma_first_span_is_leftmost(
    s: Seq<char>,
    from: int,
    open: Seq<char>,
    close: Seq<char>,
)
    requires
        0 <= from,
    ensures
        first_span(s, from, open, close) matches Some((i, j)) ==> forall|k: int|
            from <= k < i ==> !(starts_at(s, k, open) && span_end(s, k + open.len(), close)
                is Some),
        first_span(s, from, open, close) is None ==> forall|k: int|
            from <= k ==> !(starts_at(s, k, open) && span_end(s, k + open.len(), close)
                is Some),
    decreases s.len() - from,
{
    if from < s.len() {
        if !(starts_at(s, from, open) && span_end(s, from + open.len(), close) is Some) {
            lemma_first_span_is_leftmost(s, from + 1, open, close);
        }
    }
}

/// The begin marker without its last character. A text that holds it nowhere
/// cannot form a begin marker, neither alone nor together with a marker
/// written right after it.
pub open spec fn marker_stem() -> Seq<char> {
    begin_marker().subrange(0, 21)
}

/// `pat` stands nowhere in `s`.
pub open spec fn free_of(s: Seq<char>, pat: Seq<char>) -> bool {
    forall|k: int| !starts_at(s, k, pat)
}

/// The text outside the expressions of `s` holds the begin marker's stem
/// nowhere: neither a part between two expressions, nor the part before the
/// first, nor the part after the last.
pub open spec fn plain_parts_free(s: Seq<char>) -> bool
    decreases s.len(),
{
    match first_span(s, 0, open_token(), close_token()) {
        Some((i, j)) => if 0 <= i <= j && j + 2 <= s.len() {
            &&& free_of(s.subrange(0, i), marker_stem())
            &&& plain_parts_free(s.subrange(j + 2, s.len() as int))
        } else {
            free_of(s, marker_stem())
        },
        None => free_of(s, marker_stem()),
    }
}

/// The codec returns what it was given: for every expression of `s`, the
/// payload is made of base64 characters and stands for the expression.
pub open spec fn payloads_sound(s: Seq<char>) -> bool
    decreases s.len(),
{
    match first_span(s, 0, open_token(), close_token()) {
        Some((i, j)) => if 0 <= i <= j && j + 2 <= s.len() {
            let expr = s.subrange(i, j + 2);
            &&& text_of(payload_of(expr)) == Ok::<Seq<char>, DecodeError>(expr)
            &&& forall|k: int|
                0 <= k < payload_of(expr).len() ==> is_base64_char(#[trigger] payload_of(expr)[k])
            &&& payloads_sound(s.subrange(j + 2, s.len() as int))
        } else {
            true
        },
        None => true,
    }
}

/// A text in which `open` stands nowhere holds no span.
pub proof fn lemma_no_open_no_span(s: Seq<char>, from: int, open: Seq<char>, close: Seq<char>)
    requires
        free_of(s, open),
    ensures
        first_span(s, from, open, close) is None,
    decreases s.len() - from,
{
    if 0 <= from < s.len() {
        lemma_no_open_no_span(s, from + 1, open, close);
    }
}

/// Encoding leaves a text without an opening token as it is.
pub proof fn lemma_encode_plain(s: Seq<char>)
    requires
        free_of(s, open_token()),
    ensures
        encode_spec(s) == s,
{
    lemma_no_open_no_span(s, 0, open_token(), close_token());
}

/// Decoding leaves a text without a begin marker as it is.
pub proof fn lemma_decode_plain(s: Seq<char>)
    requires
        free_of(s, begin_marker()),
    ensures
        decode_spec(s) == Ok::<Seq<char>, DecodeError>(s),
{
    lemma_no_open_no_span(s, 0, begin_marker(), end_marker());
}

/// Where `open` first stands at `i`, and its span ends at `j`, the leftmost
/// span is the one from `i` to `j`.
pub proof fn lemma_first_span_at(
    s: Seq<char>,
    from: int,
    i: int,
    j: int,
    open: Seq<char>,
    close: Seq<char>,
)
    requires
        0 <= from <= i < s.len(),
        forall|k: int| from <= k < i ==> !starts_at(s, k, open),
        starts_at(s, i, open),
        span_end(s, i + open.len(), close) == Some(j),
    ensures
        first_span(s, from, open, close) == Some((i, j)),
    decreases i - from,
{
    if from < i {
        lemma_first_span_at(s, from + 1, i, j, open, close);
    }
}

/// A run of base64 characters with the end marker right after it ends at
/// that marker.
pub proof fn lemma_span_end_after_payload(s: Seq<char>, from: int, to: int)
    requires
        0 <= from <= to,
        forall|k: int| from <= k < to ==> is_base64_char(#[trigger] s[k]),
        starts_at(s, to, end_marker()),
    ensures
        span_end(s, from, end_marker()) == Some(to),
    decreases to - from,
{
    if from < to {
        assert(is_base64_char(s[from]));
        if starts_at(s, from, end_marker()) {
            assert(s.subrange(from, from + 20)[0] == end_marker()[0]);
        }
        lemma_span_end_after_payload(s, from + 1, to);
    }
}

/// In front of a begin marker, a text that is free of the marker's stem
/// completes no begin marker of its own.
pub proof fn lemma_no_early_marker(plain: Seq<char>, tail: Seq<char>, k: int)
    requires
        0 <= k < plain.len(),
        free_of(plain, marker_stem()),
        starts_at(tail, 0, begin_marker()),
    ensures
        !starts_at(plain + tail, k, begin_marker()),
{
    let t = plain + tail;
    let b = begin_marker();
    if starts_at(t, k, b) {
        assert forall|m: int| 0 <= m < 22 implies t[k + m] == b[m] by {
            assert(t.subrange(k, k + 22)[m] == b[m]);
        }
        if k + 21 <= plain.len() {
            assert forall|m: int| 0 <= m < 21 implies plain.subrange(k, k + 21)[m]
                == marker_stem()[m] by {
                assert(plain[k + m] == t[k + m]);
            }
            assert(plain.subrange(k, k + 21) =~= marker_stem());
            assert(starts_at(plain, k, marker_stem()));
        } else {
            let n = plain.len() as int;
            let d = n - k;
            assert(tail.subrange(0, 22)[0] == b[0]);
            assert(tail.subrange(0, 22)[1] == b[1]);
            assert(t[n] == tail[0]);
            assert(t[n + 1] == tail[1]);
            assert(t[k + d] == b[d]);
            assert(t[k + (d + 1)] == b[d + 1]);
            assert(b[d] == '_' && b[d + 1] == 'J');
            assert(false);
        }
    }
}

/// A part of a text that is free of a pattern is free of it too.
pub proof fn lemma_free_of_part(s: Seq<char>, from: int, to: int, pat: Seq<char>)
    requires
        0 <= from <= to <= s.len(),
        free_of(s, pat),
    ensures
        free_of(s.subrange(from, to), pat),
{
    let part = s.subrange(from, to);
    assert forall|k: int| !starts_at(part, k, pat) by {
        if starts_at(part, k, pat) {
            assert(s.subrange(from + k, from + k + pat.len()) =~= part.subrange(
                k,
                k + pat.len(),
            ));
            assert(starts_at(s, from + k, pat));
        }
    }
}

/// A marker-wrapped payload between a plain text and an encoded rest decodes
/// to the plain text, the payload's text and the decoded rest.
pub proof fn lemma_decode_wrapped(
    plain: Seq<char>,
    payload: Seq<char>,
    expr: Seq<char>,
    encoded_rest: Seq<char>,
    rest: Seq<char>,
)
    requires
        free_of(plain, marker_stem()),
        forall|k: int| 0 <= k < payload.len() ==> is_base64_char(#[trigger] payload[k]),
        text_of(payload) == Ok::<Seq<char>, DecodeError>(expr),
        decode_spec(encoded_rest) == Ok::<Seq<char>, DecodeError>(rest),
    ensures
        decode_spec(plain + begin_marker() + payload + end_marker() + encoded_rest) == Ok::<
            Seq<char>,
            DecodeError,
        >(plain + expr + rest),
{
    let tail = begin_marker() + payload + end_marker() + encoded_rest;
    let t = plain + begin_marker() + payload + end_marker() + encoded_rest;
    let i = plain.len() as int;
    let at = i + 22 + payload.len();
    assert(t =~= plain + tail);
    assert(tail.subrange(0, 22) =~= begin_marker());
    assert forall|k: int| 0 <= k < i implies !starts_at(t, k, begin_marker()) by {
        lemma_no_early_marker(plain, tail, k);
    }
    assert(t.subrange(i, i + 22) =~= begin_marker());
    assert(t.subrange(at, at + 20) =~= end_marker());
    assert forall|k: int| i + 22 <= k < at implies is_base64_char(#[trigger] t[k]) by {
        assert(t[k] == payload[k - i - 22]);
    }
    lemma_span_end_after_payload(t, i + 22, at);
    lemma_first_span_at(t, 0, i, at, begin_marker(), end_marker());
    assert(t.subrange(i + 22, at) =~= payload);
    assert(t.subrange(at + 20, t.len() as int) =~= encoded_rest);
    assert(t.subrange(0, i) =~= plain);
}

/// A text that holds the stem nowhere holds it nowhere outside its
/// expressions.
pub proof fn lemma_free_text_has_free_parts(s: Seq<char>)
    requires
        free_of(s, marker_stem()),
    ensures
        plain_parts_free(s),
    decreases s.len(),
{
    match first_span(s, 0, open_token(), close_token()) {
        Some((i, j)) => {
            if 0 <= i <= j && j + 2 <= s.len() {
                lemma_free_of_part(s, 0, i, marker_stem());
                lemma_free_of_part(s, j + 2, s.len() as int, marker_stem());
                lemma_free_text_has_free_parts(s.subrange(j + 2, s.len() as int));
            }
        },
        None => {},
    }
}

/// Decoding inverts encoding: for a text that holds the begin marker's stem
/// nowhere outside its expressions, and whose payloads the codec turns back
/// into their expressions, decoding the encoded text gives the text itself.
pub proof fn lemma_decode_inverts_encode(s: Seq<char>)
    requires
        plain_parts_free(s),
        payloads_sound(s),
    ensures
        decode_spec(encode_spec(s)) == Ok::<Seq<char>, DecodeError>(s),
    decreases s.len(),
{
    match first_span(s, 0, open_token(), close_token()) {
        Some((i, j)) => {
            lemma_first_span_bounds(s, 0, open_token(), close_token());
            let n = s.len() as int;
            let plain = s.subrange(0, i);
            let expr = s.subrange(i, j + 2);
            let rest = s.subrange(j + 2, n);
            lemma_decode_inverts_encode(rest);
            lemma_decode_wrapped(plain, payload_of(expr), expr, encode_spec(rest), rest);
            assert(plain + expr + rest =~= s);
        },
        None => {
            assert forall|k: int| !starts_at(s, k, begin_marker()) by {
                if starts_at(s, k, begin_marker()) {
                    assert(s.subrange(k, k + 21) =~= s.subrange(k, k + 22).subrange(0, 21));
                    assert(starts_at(s, k, marker_stem()));
                }
            }
            lemma_decode_plain(s);
        },
    }
}

/// Calls `Engine::encode` of base64's `STANDARD_NO_PAD` engine. The contract
/// names the text it returns, and claims of it what the engine's alphabet and
/// its decoder give: every character is of the standard alphabet, and the
/// decoder of the same engine returns the bytes that were encoded. The
/// engine's size computation cannot overflow for the length of a slice.
#[verifier::external_body]
fn base64_encode(bytes: &[u8]) -> (text: String)
    ensures
        text@ == base64_text(bytes@),
        base64_bytes(text@) == Some(bytes@),
        forall|k: int| 0 <= k < text@.len() ==> is_base64_char(#[trigger] text@[k]),
{
    base64::engine::general_purpose::STANDARD_NO_PAD.encode(bytes)
}

/// Calls `Engine::decode` of base64's `STANDARD_NO_PAD` engine. The contract
/// names the bytes it returns, and nothing where it returns an error.
#[verifier::external_body]
fn base64_decode(text: &str) -> (bytes: Option<Vec<u8>>)
    ensures
        match bytes {
            Some(b) => base64_bytes(text@) == Some(b@),
            None => base64_bytes(text@) is None,
        },
{
    base64::engine::general_purpose::STANDARD_NO_PAD.decode(text).ok()
}

/// Calls `String::from_utf8`. The contract claims that it returns the decoded
/// text exactly where the bytes are valid UTF-8, and nothing elsewhere.
#[verifier::external_body]
fn utf8_text(bytes: Vec<u8>) -> (text: Option<String>)
    ensures
        match text {
            Some(t) => valid_utf8(bytes@) && t@ == decode_utf8(bytes@),
            None => !valid_utf8(bytes@),
        },
{
    String::from_utf8(bytes).ok()
}

/// The payload of one expression.
pub fn encode_expression(expr: &str) -> (payload: String)
    ensures
        payload@ == payload_of(expr@),
        text_of(payload@) == Ok::<Seq<char>, DecodeError>(expr@),
        forall|k: int| 0 <= k < payload@.len() ==> is_base64_char(#[trigger] payload@[k]),
{
    proof {
        broadcast use vstd::utf8::group_utf8_lib;
    }
    base64_encode(expr.as_bytes())
}

/// The text of one payload.
pub fn decode_payload(payload: &str) -> (text: Result<String, DecodeError>)
    ensures
        match text {
            Ok(t) => text_of(payload@) == Ok::<Seq<char>, DecodeError>(t@),
            Err(e) => text_of(payload@) == Err::<Seq<char>, DecodeError>(e),
        },
{
    match base64_decode(payload) {
        None => Err(DecodeError::Payload),
        Some(bytes) => match utf8_text(bytes) {
            None => Err(DecodeError::Text),
            Some(t) => Ok(t),
        },
    }
}

/// The characters of a text.
#[verifier::loop_isolation(false)]
pub fn to_chars(text: &str) -> (chars: Vec<char>)
    ensures
        chars@ == text@,
{
    let mut chars: Vec<char> = Vec::new();
    let source = text.chars();
    for c in it: source
        invariant
            it.seq() == text@,
            chars@ == it.history(),
    {
        chars.push(c);
    }
    chars
}

/// Tells whether `pat` stands in `chars` at `at`.
pub fn matches_at(chars: &Vec<char>, at: usize, pat: &Vec<char>) -> (found: bool)
    ensures
        found == starts_at(chars@, at as int, pat@),
{
    if pat.len() > chars.len() || at > chars.len() - pat.len() {
        return false;
    }
    let mut k: usize = 0;
    while k < pat.len()
        invariant
            k <= pat.len(),
            at + pat.len() <= chars.len(),
            chars@.subrange(at as int, at + k) =~= pat@.subrange(0, k as int),
        decreases pat.len() - k,
    {
        if chars[at + k] != pat[k] {
            proof {
                let whole = chars@.subrange(at as int, at + pat.len());
                assert(whole[k as int] != pat@[k as int]);
            }
            return false;
        }
        k += 1;
    }
    assert(pat@.subrange(0, pat.len() as int) =~= pat@);
    true
}

/// Finds the first `close` at or after `from` on the same line.
pub fn find_end(chars: &Vec<char>, from: usize, close: &Vec<char>) -> (found: Option<usize>)
    requires
        from <= chars.len(),
    ensures
        match found {
            Some(j) => span_end(chars@, from as int, close@) == Some(j as int) && from <= j && j
                + close.len() <= chars.len(),
            None => span_end(chars@, from as int, close@) is None,
        },
{
    let mut j: usize = from;
    while j < chars.len()
        invariant
            from <= j <= chars.len(),
            span_end(chars@, from as int, close@) == span_end(chars@, j as int, close@),
        decreases chars.len() - j,
    {
        if matches_at(chars, j, close) {
            return Some(j);
        }
        if chars[j] == '\n' {
            return None;
        }
        j += 1;
    }
    None
}

/// Finds the leftmost span of `open` and `close` in `chars`.
pub fn find_span(chars: &Vec<char>, open: &Vec<char>, close: &Vec<char>) -> (found: Option<
    (usize, usize),
>)
    ensures
        match found {
            Some((i, j)) => first_span(chars@, 0, open@, close@) == Some((i as int, j as int))
                && i + open.len() <= j && j + close.len() <= chars.len(),
            None => first_span(chars@, 0, open@, close@) is None,
        },
{
    let mut i: usize = 0;
    while i < chars.len()
        invariant
            i <= chars.len(),
            first_span(chars@, 0, open@, close@) == first_span(chars@, i as int, open@, close@),
        decreases chars.len() - i,
    {
        if matches_at(chars, i, open) {
            let after = i + open.len();
            match find_end(chars, after, close) {
                Some(j) => {
                    return Some((i, j));
                },
                None => {},
            }
        }
        i += 1;
    }
    None
}

/// Replaces every template expression of `text` by its marker-wrapped payload.
///
/// Decoding the result gives `text` back, provided that `text` holds the
/// begin marker's stem nowhere outside its expressions.
pub fn encode(text: &str) -> (out: String)
    ensures
        out@ == encode_spec(text@),
        plain_parts_free(text@) ==> decode_spec(out@) == Ok::<Seq<char>, DecodeError>(text@),
{
    let open = to_chars("{{");
    let close = to_chars("}}");
    proof {
        reveal_strlit("{{");
        reveal_strlit("}}");
        reveal_strlit("_JINJI_ENC_BEGIN_MARK_");
        reveal_strlit("_JINJI_ENC_END_MARK_");
        assert(open@ =~= open_token());
        assert(close@ =~= close_token());
        assert("_JINJI_ENC_BEGIN_MARK_"@ =~= begin_marker());
        assert("_JINJI_ENC_END_MARK_"@ =~= end_marker());
    }
    let mut out = String::new();
    let mut rest: &str = text;
    loop
        invariant
            open@ == open_token(),
            close@ == close_token(),
            "_JINJI_ENC_BEGIN_MARK_"@ == begin_marker(),
            "_JINJI_ENC_END_MARK_"@ == end_marker(),
            encode_spec(text@) == out@ + encode_spec(rest@),
            payloads_sound(rest@) ==> payloads_sound(text@),
        decreases rest@.len(),
    {
        let chars = to_chars(rest);
        match find_span(&chars, &open, &close) {
            None => {
                out.append(rest);
                proof {
                    if plain_parts_free(text@) {
                        lemma_decode_inverts_encode(text@);
                    }
                }
                return out;
            },
            Some((i, j)) => {
                let n = chars.len();
                let payload = encode_expression(rest.substring_char(i, j + 2));
                out.append(rest.substring_char(0, i));
                out.append("_JINJI_ENC_BEGIN_MARK_");
                out.append(payload.as_str());
                out.append("_JINJI_ENC_END_MARK_");
                rest = rest.substring_char(j + 2, n);
            },
        }
    }
}

/// Replaces every marker-wrapped run of `text` by the text of its payload.
///
/// Fails with the error of the leftmost run whose payload is malformed.
pub fn decode(text: &str) -> (out: Result<String, DecodeError>)
    ensures
        match out {
            Ok(t) => decode_spec(text@) == Ok::<Seq<char>, DecodeError>(t@),
            Err(e) => decode_spec(text@) == Err::<Seq<char>, DecodeError>(e),
        },
{
    let begin = to_chars("_JINJI_ENC_BEGIN_MARK_");
    let end = to_chars("_JINJI_ENC_END_MARK_");
    proof {
        reveal_strlit("_JINJI_ENC_BEGIN_MARK_");
        reveal_strlit("_JINJI_ENC_END_MARK_");
        assert(begin@ =~= begin_marker());
        assert(end@ =~= end_marker());
    }
    let mut out = String::new();
    let mut rest: &str = text;
    loop
        invariant
            begin@ == begin_marker(),
            end@ == end_marker(),
            decode_spec(text@) == match decode_spec(rest@) {
                Ok(r) => Ok::<Seq<char>, DecodeError>(out@ + r),
                Err(e) => Err(e),
            },
        decreases rest@.len(),
    {
        let chars = to_chars(rest);
        match find_span(&chars, &begin, &end) {
            None => {
                out.append(rest);
                return Ok(out);
            },
            Some((i, j)) => {
                let n = chars.len();
                match decode_payload(rest.substring_char(i + 22, j)) {
                    Err(e) => {
                        return Err(e);
                    },
                    Ok(expr) => {
                        let ghost before = out@;
                        let ghost plain = rest@.subrange(0, i as int);
                        out.append(rest.substring_char(0, i));
                        out.append(expr.as_str());
                        rest = rest.substring_char(j + 20, n);
                        proof {
                            if let Ok(r) = decode_spec(rest@) {
                                assert(before + (plain + expr@ + r) =~= out@ + r);
                            }
                        }
                    },
                }
            },
        }
    }
}

} // verus!
