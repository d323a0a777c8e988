//! Editor command lines and the JSON-RPC requests they become.
use vstd::prelude::*;
use vstd::string::StringSliceAdditionalSpecFns;
use vstd::utf8::{
    encode_utf8_valid_utf8, is_char_boundary, is_char_boundary_iff_not_is_continuation_byte,
    is_char_boundary_start_end_of_seq, length_of_first_scalar, valid_utf8,
};
use crate::codec::{decimal, is_ws, number_value, opt_nat, parse_number, push_decimal, push_slice};

verus! {

/// A lookup at a position in a document.
#[derive(PartialEq, Eq, Structural, Clone, Copy, Debug)]
pub enum Intent {
    Definition,
    Hover,
    Completion,
}

impl Intent {
    /// The label of the output line that carries the reply to this intent.
    pub fn response_label(&self) -> (r: &'static str)
        ensures
            r@ == match *self {
                Intent::Definition => "DEFINITION_RESPONSE"@,
                Intent::Hover => "HOVER_RESPONSE"@,
                Intent::Completion => "COMPLETION_RESPONSE"@,
            },
    {
        match self {
            Intent::Definition => "DEFINITION_RESPONSE",
            Intent::Hover => "HOVER_RESPONSE",
            Intent::Completion => "COMPLETION_RESPONSE",
        }
    }
}

/// The words of `s`, separated by ASCII whitespace, from position `i`, where the current word began at
/// `start`, if one has.
pub open spec fn words_from(s: Seq<u8>, i: nat, start: Option<nat>) -> Seq<Seq<u8>>
    decreases s.len() - i,
{
    if i >= s.len() {
        match start {
            None => Seq::empty(),
            Some(a) => seq![s.subrange(a as int, s.len() as int)],
        }
    } else if is_ws(s[i as int]) {
        match start {
            None => words_from(s, i + 1, None),
            Some(a) => seq![s.subrange(a as int, i as int)] + words_from(s, i + 1, None),
        }
    } else {
        match start {
            None => words_from(s, i + 1, Some(i)),
            Some(a) => words_from(s, i + 1, Some(a)),
        }
    }
}

/// The whitespace-separated words of a command line.
pub open spec fn words(s: Seq<u8>) -> Seq<Seq<u8>> {
    words_from(s, 0, None)
}



/// The intent that a command word names.
pub open spec fn intent_named(w: Seq<u8>) -> Option<Intent> {
    if w == "DEFINITION".spec_bytes() {
        Some(Intent::Definition)
    } else if w == "HOVER".spec_bytes() {
        Some(Intent::Hover)
    } else if w == "COMPLETION".spec_bytes() {
        Some(Intent::Completion)
    } else {
        None
    }
}

/// What a command line asks for.
pub enum CommandShape {
    /// No words at all.
    Blank,
    /// An unknown first word, or a known one without exactly three arguments.
    Unknown,
    /// A known command whose line or column is not a decimal `u32`.
    BadNumber,
    Call { intent: Intent, uri: Seq<u8>, line: nat, column: nat },
}

pub open spec fn command_shape(s: Seq<u8>) -> CommandShape {
    let w = words(s);
    if w.len() == 0 {
        CommandShape::Blank
    } else if intent_named(w[0]) is None || w.len() != 4 {
        CommandShape::Unknown
    } else {
        match (number_value(w[2], u32::MAX as nat), number_value(w[3], u32::MAX as nat)) {
            (Some(line), Some(column)) => CommandShape::Call {
                intent: intent_named(w[0])->Some_0,
                uri: w[1],
                line,
                column,
            },
            _ => CommandShape::BadNumber,
        }
    }
}

/// A lookup that a command line asks for.
pub struct Call {
    pub intent: Intent,
    pub uri: Vec<u8>,
    /// Where the URI stands in the command line.
    pub uri_at: (usize, usize),
    pub line: u32,
    pub column: u32,
}

/// A command line, read.
pub enum Parsed {
    Blank,
    Unknown,
    BadNumber,
    Call(Call),
}

/// A range of `s` whose ends border on ASCII whitespace or on the ends of `s`.
pub open spec fn span_ok(s: Seq<u8>, p: (usize, usize)) -> bool {
    &&& p.0 <= p.1 <= s.len()
    &&& (p.0 == 0 || is_ws(s[p.0 - 1]))
    &&& (p.1 == s.len() || is_ws(s[p.1 as int]))
}

/// The byte ranges of the words of `s`, in order.
pub fn split_words(s: &[u8]) -> (r: Vec<(usize, usize)>)
    ensures
        r@.len() == words(s@).len(),
        forall|k: int| 0 <= k < r@.len() ==> span_ok(s@, #[trigger] r@[k]),
        forall|k: int|
            0 <= k < r@.len() ==> s@.subrange(r@[k].0 as int, r@[k].1 as int) == #[trigger] words(s@)[k],
{
    let mut spans: Vec<(usize, usize)> = Vec::new();
    let ghost mut acc: Seq<Seq<u8>> = Seq::empty();
    let mut start: Option<usize> = None;
    let mut i: usize = 0;
    while i < s.len()
        invariant
            i <= s@.len(),
            words(s@) == acc + words_from(s@, i as nat, opt_nat(start)),
            start matches Some(a) ==> a < i && (a == 0 || is_ws(s@[a - 1])),
            start is None ==> i == 0 || is_ws(s@[i - 1]),
            spans@.len() == acc.len(),
            forall|k: int| 0 <= k < spans@.len() ==> span_ok(s@, #[trigger] spans@[k]),
            forall|k: int|
                0 <= k < spans@.len() ==> s@.subrange(spans@[k].0 as int, spans@[k].1 as int) == #[trigger] acc[k],
        decreases s@.len() - i,
    {
        let b = s[i];
        if b == 32 || b == 9 || b == 10 || b == 11 || b == 12 || b == 13 {
            if let Some(a) = start {
                proof {
                    assert(acc + words_from(s@, i as nat, opt_nat(start)) =~= acc.push(s@.subrange(a as int, i as int)) + words_from(s@, (i + 1) as nat, None));
                    acc = acc.push(s@.subrange(a as int, i as int));
                }
                spans.push((a, i));
                assert(s@.subrange(spans@[acc.len() - 1].0 as int, spans@[acc.len() - 1].1 as int) == acc[acc.len() - 1]);
                start = None;
            }
        } else if start.is_none() {
            start = Some(i);
        }
        i = i + 1;
    }
    if let Some(a) = start {
        proof {
            assert(acc + words_from(s@, i as nat, opt_nat(start)) =~= acc.push(s@.subrange(a as int, i as int)));
            acc = acc.push(s@.subrange(a as int, i as int));
        }
        spans.push((a, i));
        assert(s@.subrange(spans@[acc.len() - 1].0 as int, spans@[acc.len() - 1].1 as int) == acc[acc.len() - 1]);
    } else {
        assert(acc + words_from(s@, i as nat, opt_nat(start)) =~= acc);
    }
    assert(words(s@) == acc);
    spans
}

/// The text of a word of `s`, by its byte range.
pub fn word_str<'a>(s: &'a str, a: usize, b: usize) -> (r: &'a str)
    requires
        span_ok(s.spec_bytes(), (a, b)),
    ensures
        r.spec_bytes() == s.spec_bytes().subrange(a as int, b as int),
{
    let ghost bs = s.spec_bytes();
    proof {
        encode_utf8_valid_utf8(s@);
        if b < bs.len() {
            is_char_boundary_iff_not_is_continuation_byte(bs, b as int);
        } else {
            is_char_boundary_start_end_of_seq(bs);
        }
    }
    let (left, _) = s.split_at(b);
    if a == 0 {
        assert(left.spec_bytes() =~= bs.subrange(0, b as int));
        return left;
    }
    let ghost lb = left.spec_bytes();
    proof {
        encode_utf8_valid_utf8(left@);
        assert(lb[a - 1] == bs[a - 1]);
        is_char_boundary_iff_not_is_continuation_byte(lb, a - 1);
    }
    let (_, mid) = left.split_at(a - 1);
    let ghost mb = mid.spec_bytes();
    proof {
        encode_utf8_valid_utf8(mid@);
        assert(mb[0] == bs[a - 1]);
        assert(length_of_first_scalar(mb) == 1);
        assert(valid_utf8(mb.subrange(1, mb.len() as int)));
        reveal_with_fuel(is_char_boundary, 2);
        assert(is_char_boundary(mb, 1));
    }
    let (_, word) = mid.split_at(1);
    assert(word.spec_bytes() =~= bs.subrange(a as int, b as int));
    word
}

/// Whether `s[a..b]` is the text `w`.
fn bytes_equal(s: &[u8], a: usize, b: usize, w: &[u8]) -> (r: bool)
    requires
        a <= b <= s@.len(),
    ensures
        r == (s@.subrange(a as int, b as int) == w@),
{
    if b - a != w.len() {
        return false;
    }
    let mut j: usize = 0;
    while j < w.len()
        invariant
            j <= w@.len(),
            a + w@.len() == b <= s@.len(),
            forall|x: int| 0 <= x < j ==> s@[a + x] == w@[x],
        decreases w@.len() - j,
    {
        if s[a + j] != w[j] {
            assert(s@.subrange(a as int, b as int)[j as int] != w@[j as int]);
            return false;
        }
        j = j + 1;
    }
    assert(s@.subrange(a as int, b as int) =~= w@);
    true
}

fn intent_in(s: &[u8], a: usize, b: usize) -> (r: Option<Intent>)
    requires
        a <= b <= s@.len(),
    ensures
        r == intent_named(s@.subrange(a as int, b as int)),
{
    if bytes_equal(s, a, b, "DEFINITION".as_bytes()) {
        Some(Intent::Definition)
    } else if bytes_equal(s, a, b, "HOVER".as_bytes()) {
        Some(Intent::Hover)
    } else if bytes_equal(s, a, b, "COMPLETION".as_bytes()) {
        Some(Intent::Completion)
    } else {
        None
    }
}

/// Reads a command line `<INTENT> <uri> <line> <column>`.
pub fn parse_command(s: &[u8]) -> (r: Parsed)
    ensures
        match command_shape(s@) {
            CommandShape::Blank => r is Blank,
            CommandShape::Unknown => r is Unknown,
            CommandShape::BadNumber => r is BadNumber,
            CommandShape::Call { intent, uri, line, column } => r matches Parsed::Call(c) && c.intent
                == intent && c.uri@ == uri && c.line == line && c.column == column && span_ok(s@, c.uri_at)
                && s@.subrange(c.uri_at.0 as int, c.uri_at.1 as int) == uri,
        },
{
    let spans = split_words(s);
    let ghost w = words(s@);
    if spans.len() == 0 {
        return Parsed::Blank;
    }
    assert(s@.subrange(spans@[0].0 as int, spans@[0].1 as int) == w[0]);
    let intent = intent_in(s, spans[0].0, spans[0].1);
    if intent.is_none() || spans.len() != 4 {
        return Parsed::Unknown;
    }
    assert(s@.subrange(spans@[1].0 as int, spans@[1].1 as int) == w[1]);
    assert(s@.subrange(spans@[2].0 as int, spans@[2].1 as int) == w[2]);
    assert(s@.subrange(spans@[3].0 as int, spans@[3].1 as int) == w[3]);
    let line = parse_number(s, spans[2].0, spans[2].1, 0xffff_ffff);
    let column = parse_number(s, spans[3].0, spans[3].1, 0xffff_ffff);
    match (line, column) {
        (Some(l), Some(c)) => {
            let mut uri: Vec<u8> = Vec::new();
            let (ua, ub) = spans[1];
            let mut j: usize = ua;
            while j < ub
                invariant
                    ua <= j <= ub <= s@.len(),
                    uri@ == s@.subrange(ua as int, j as int),
                decreases ub - j,
            {
                uri.push(s[j]);
                j = j + 1;
                assert(uri@ =~= s@.subrange(ua as int, j as int));
            }
            Parsed::Call(Call { intent: intent.unwrap(), uri, uri_at: (ua, ub), line: l as u32, column: c as u32 })
        },
        _ => Parsed::BadNumber,
    }
}


/// The JSON-RPC method that serves an intent.
pub open spec fn method_name(i: Intent) -> Seq<u8> {
    match i {
        Intent::Definition => "textDocument/definition".spec_bytes(),
        Intent::Hover => "textDocument/hover".spec_bytes(),
        Intent::Completion => "textDocument/completion".spec_bytes(),
    }
}

/// The parameters of a lookup: the document, with its URI already written as
/// a JSON string, and the zero-based position.
pub open spec fn position_params(uri_json: Seq<u8>, line: nat, column: nat) -> Seq<u8> {
    "{\"textDocument\":{\"uri\":".spec_bytes() + uri_json + "},\"position\":{\"line\":".spec_bytes()
        + decimal(line) + ",\"character\":".spec_bytes() + decimal(column) + "}}".spec_bytes()
}

/// The parameters of the handshake: the client's process id, its name and
/// version, the root URI (already a JSON string), no capabilities, and the
/// trace level.
pub open spec fn initialize_params(process_id: nat, root_json: Seq<u8>) -> Seq<u8> {
    "{\"processId\":".spec_bytes() + decimal(process_id)
        + ",\"clientInfo\":{\"name\":\"vim-rust-lsp-bridge\",\"version\":\"0.1.0\"},\"rootUri\":".spec_bytes()
        + root_json + ",\"capabilities\":{},\"trace\":\"verbose\"}".spec_bytes()
}

/// A JSON-RPC request, compact.
pub open spec fn request_text(id: nat, method: Seq<u8>, params: Seq<u8>) -> Seq<u8> {
    "{\"jsonrpc\":\"2.0\",\"id\":".spec_bytes() + decimal(id) + ",\"method\":\"".spec_bytes() + method
        + "\",\"params\":".spec_bytes() + params + "}".spec_bytes()
}

fn push_request_head(out: &mut Vec<u8>, id: u64, method: &[u8])
    ensures
        final(out)@ == old(out)@ + "{\"jsonrpc\":\"2.0\",\"id\":".spec_bytes() + decimal(id as nat)
            + ",\"method\":\"".spec_bytes() + method@ + "\",\"params\":".spec_bytes(),
{
    push_slice(out, "{\"jsonrpc\":\"2.0\",\"id\":".as_bytes());
    push_decimal(out, id as u128);
    push_slice(out, ",\"method\":\"".as_bytes());
    push_slice(out, method);
    push_slice(out, "\",\"params\":".as_bytes());
}

fn method_bytes(i: Intent) -> (r: &'static [u8])
    ensures
        r@ == method_name(i),
{
    match i {
        Intent::Definition => "textDocument/definition".as_bytes(),
        Intent::Hover => "textDocument/hover".as_bytes(),
        Intent::Completion => "textDocument/completion".as_bytes(),
    }
}

/// The request text of a lookup.
pub fn intent_request(id: u64, intent: Intent, uri_json: &[u8], line: u32, column: u32) -> (r: Vec<u8>)
    ensures
        r@ == request_text(id as nat, method_name(intent), position_params(uri_json@, line as nat, column as nat)),
{
    let mut out: Vec<u8> = Vec::new();
    push_request_head(&mut out, id, method_bytes(intent));
    push_slice(&mut out, "{\"textDocument\":{\"uri\":".as_bytes());
    push_slice(&mut out, uri_json);
    push_slice(&mut out, "},\"position\":{\"line\":".as_bytes());
    push_decimal(&mut out, line as u128);
    push_slice(&mut out, ",\"character\":".as_bytes());
    push_decimal(&mut out, column as u128);
    push_slice(&mut out, "}}".as_bytes());
    push_slice(&mut out, "}".as_bytes());
    assert(out@ =~= request_text(id as nat, method_name(intent), position_params(uri_json@, line as nat, column as nat)));
    out
}

/// The request text of the handshake.
pub fn initialize_request(id: u64, process_id: u32, root_json: &[u8]) -> (r: Vec<u8>)
    ensures
        r@ == request_text(id as nat, "initialize".spec_bytes(), initialize_params(process_id as nat, root_json@)),
{
    let mut out: Vec<u8> = Vec::new();
    push_request_head(&mut out, id, "initialize".as_bytes());
    push_slice(&mut out, "{\"processId\":".as_bytes());
    push_decimal(&mut out, process_id as u128);
    push_slice(&mut out, ",\"clientInfo\":{\"name\":\"vim-rust-lsp-bridge\",\"version\":\"0.1.0\"},\"rootUri\":".as_bytes());
    push_slice(&mut out, root_json);
    push_slice(&mut out, ",\"capabilities\":{},\"trace\":\"verbose\"}".as_bytes());
    push_slice(&mut out, "}".as_bytes());
    assert(out@ =~= request_text(id as nat, "initialize".spec_bytes(), initialize_params(process_id as nat, root_json@)));
    out
}

} // verus!
