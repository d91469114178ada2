//! The MPD client protocol: quoting of command arguments, the reading of
//! a command's response line by line, and the decisions that the
//! connection task takes on each request and status poll.

use vstd::prelude::*;
use crate::text::{
    is_white_space, white_space, trim, trim_start, trim_end, is_ascii_digit, is_digits,
    digits_value, parse_unsigned, parse_digits, str_chars, string_from_chars, sub_string,
    push_char, decimal, decimal_string, parse_unsigned_range, trim_range, trim_start_index,
    trim_end_index, to_lowercase, lowercase, is_ascii_text, ascii_lower,
};

verus! {

/// A successful response: its `key: value` fields in order, and the
/// binary chunk when the response carried one.
pub struct MpdComOk {
    pub flds: Vec<(String, String)>,
    pub bin: Option<Vec<u8>>,
}

impl MpdComOk {
    pub fn new() -> (r: MpdComOk)
        ensures
            r.flds@.len() == 0,
            fields_of(r.flds) =~= Seq::empty(),
            r.bin is None,
    {
        MpdComOk { flds: Vec::new(), bin: None }
    }
}

/// The status fields handed to the web clients.
pub struct MpdComOkStatus {
    pub status: Vec<(String, String)>,
}

impl MpdComOkStatus {
    pub fn from(f: MpdComOk) -> (r: MpdComOkStatus)
        ensures
            r.status == f.flds,
    {
        MpdComOkStatus { status: f.flds }
    }
}

/// A failed request: MPD's `ACK` error, or a code of this daemon
/// (`-1` no answer, `-2` connection lost or refused, `-3` bad request).
pub struct MpdComErr {
    pub err_code: i32,
    pub cmd_index: i32,
    pub cur_cmd: String,
    pub msg_text: String,
}

impl MpdComErr {
    pub fn new(err_code: i32) -> (r: MpdComErr)
        ensures
            r.err_code == err_code,
            r.cmd_index == 0,
            r.cur_cmd@ =~= Seq::empty(),
            r.msg_text@ =~= Seq::empty(),
    {
        MpdComErr { err_code, cmd_index: 0, cur_cmd: String::new(), msg_text: String::new() }
    }
}

pub type MpdComResult = Result<MpdComOk, MpdComErr>;

/// What a client asks of the MPD connection task.
pub enum MpdComRequestType {
    Nop,
    Cmd(String),
    SetVol(String),
    SetMute(String),
    AddUrl((String, String)),
    AddAuxIn(String),
    TestSound,
    Shutdown,
}

// ---------------------------------------------------------------------
// Argument quoting

/// Each `\` and `"` preceded by a backslash.
pub open spec fn escape(s: Seq<char>) -> Seq<char>
    decreases s.len(),
{
    if s.len() == 0 {
        Seq::empty()
    } else {
        let c = s[0];
        let e = if c == '\\' || c == '"' {
            seq!['\\', c]
        } else {
            seq![c]
        };
        e + escape(s.drop_first())
    }
}

/// Drops each backslash and keeps the character after it.
pub open spec fn unescape(s: Seq<char>) -> Seq<char>
    decreases s.len(),
{
    if s.len() == 0 {
        Seq::empty()
    } else if s[0] == '\\' && s.len() >= 2 {
        seq![s[1]] + unescape(s.skip(2))
    } else {
        seq![s[0]] + unescape(s.drop_first())
    }
}

/// `quote_arg`: escape, and put the result in double quotes when the
/// argument holds a space.
pub open spec fn quoted(s: Seq<char>) -> Seq<char> {
    if s.contains(' ') {
        seq!['"'] + escape(s) + seq!['"']
    } else {
        escape(s)
    }
}

/// Escaping is undone by dropping the escapes.
pub proof fn lemma_unescape_escape(s: Seq<char>)
    ensures
        unescape(escape(s)) == s,
    decreases s.len(),
{
    if s.len() > 0 {
        lemma_unescape_escape(s.drop_first());
        let c = s[0];
        let rest = escape(s.drop_first());
        if c == '\\' || c == '"' {
            let e = seq!['\\', c] + rest;
            assert(e.skip(2) =~= rest);
            assert(escape(s) == e);
        } else {
            let e = seq![c] + rest;
            assert(e.drop_first() =~= rest);
            assert(escape(s) == e);
        }
        assert(s =~= seq![c] + s.drop_first());
    }
}

proof fn lemma_escape_contains_space(s: Seq<char>)
    ensures
        escape(s).contains(' ') == s.contains(' '),
    decreases s.len(),
{
    if s.len() > 0 {
        lemma_escape_contains_space(s.drop_first());
        let c = s[0];
        let rest = escape(s.drop_first());
        let e = if c == '\\' || c == '"' {
            seq!['\\', c]
        } else {
            seq![c]
        };
        assert(escape(s) == e + rest);
        if s.contains(' ') {
            let i = choose|i: int| 0 <= i < s.len() && s[i] == ' ';
            if i == 0 {
                assert(escape(s)[e.len() - 1] == ' ');
            } else {
                assert(s.drop_first()[i - 1] == ' ');
                let j = choose|j: int| 0 <= j < rest.len() && rest[j] == ' ';
                assert(escape(s)[e.len() + j] == ' ');
            }
        }
        if escape(s).contains(' ') {
            let i = choose|i: int| 0 <= i < escape(s).len() && escape(s)[i] == ' ';
            if i < e.len() {
                assert(s[0] == ' ');
            } else {
                assert(rest[i - e.len()] == ' ');
                let j = choose|j: int| 0 <= j < s.drop_first().len() && s.drop_first()[j] == ' ';
                assert(s[j + 1] == ' ');
            }
        }
    }
}

/// Escapes `"` and `\` in a command argument, and puts it in double
/// quotes when it holds a space.
pub fn quote_arg(arg: &str) -> (r: String)
    ensures
        r@ == quoted(arg@),
{
    let cs = str_chars(arg);
    let mut esc: Vec<char> = Vec::new();
    let mut has_space = false;
    let mut i: usize = 0;
    assert(cs@.skip(0) =~= cs@);
    while i < cs.len()
        invariant
            i <= cs.len(),
            cs@ == arg@,
            escape(arg@) == esc@ + escape(cs@.skip(i as int)),
            has_space == cs@.subrange(0, i as int).contains(' '),
        decreases cs.len() - i,
    {
        let c = cs[i];
        let ghost rest = cs@.skip(i as int);
        assert(rest.drop_first() =~= cs@.skip(i + 1));
        if c == '\\' || c == '"' {
            esc.push('\\');
            esc.push(c);
            assert(esc@ + escape(cs@.skip(i + 1)) =~= esc@.subrange(0, esc@.len() - 2) + (seq![
                '\\',
                c,
            ] + escape(rest.drop_first())));
        } else {
            esc.push(c);
            assert(esc@ + escape(cs@.skip(i + 1)) =~= esc@.subrange(0, esc@.len() - 1) + (seq![c]
                + escape(rest.drop_first())));
        }
        proof {
            let pre = cs@.subrange(0, i as int);
            let nxt = cs@.subrange(0, i + 1);
            assert(nxt =~= pre.push(c));
            if pre.contains(' ') {
                let j = choose|j: int| 0 <= j < pre.len() && pre[j] == ' ';
                assert(nxt[j] == ' ');
            }
            if nxt.contains(' ') && c != ' ' {
                let j = choose|j: int| 0 <= j < nxt.len() && nxt[j] == ' ';
                assert(pre[j] == ' ');
            }
            if c == ' ' {
                assert(nxt[i as int] == ' ');
            }
        }
        if c == ' ' {
            has_space = true;
        }
        i = i + 1;
    }
    proof {
        assert(cs@.skip(i as int) =~= Seq::<char>::empty());
        assert(esc@ + Seq::<char>::empty() =~= esc@);
        assert(cs@.subrange(0, i as int) =~= cs@);
        lemma_escape_contains_space(arg@);
    }
    if has_space {
        let mut out: Vec<char> = Vec::new();
        out.push('"');
        let mut k: usize = 0;
        while k < esc.len()
            invariant
                k <= esc.len(),
                out@ == seq!['"'] + esc@.subrange(0, k as int),
            decreases esc.len() - k,
        {
            out.push(esc[k]);
            assert(esc@.subrange(0, k + 1) =~= esc@.subrange(0, k as int).push(esc@[k as int]));
            k = k + 1;
        }
        out.push('"');
        assert(esc@.subrange(0, k as int) =~= esc@);
        string_from_chars(out.as_slice())
    } else {
        string_from_chars(esc.as_slice())
    }
}

} // verus!

verus! {

// ---------------------------------------------------------------------
// Response lines

/// What one response line means.
pub enum ResponseLine {
    /// `OK`: the command succeeded and the response is complete.
    Done,
    /// `ACK [code@index] {command} message`: the command failed.
    Ack { err_code: int, cmd_index: int, cur_cmd: Seq<char>, msg_text: Seq<char> },
    /// `key: value`, both trimmed.
    Field(Seq<char>, Seq<char>),
    /// `binary: n`: a binary chunk follows.
    Binary(int),
    /// A number in an `ACK` or `binary` line that does not fit its type.
    BadNumber,
    /// Anything else, which the reader skips.
    Ignored,
}

/// The end of the white-space run that starts at `i`.
pub open spec fn ws_end(s: Seq<char>, i: int) -> int
    decreases s.len() - i,
{
    if 0 <= i < s.len() && is_white_space(s[i]) {
        ws_end(s, i + 1)
    } else {
        i
    }
}

/// The end of the run of ASCII digits that starts at `i`.
pub open spec fn digits_end(s: Seq<char>, i: int) -> int
    decreases s.len() - i,
{
    if 0 <= i < s.len() && is_ascii_digit(s[i]) {
        digits_end(s, i + 1)
    } else {
        i
    }
}

/// The first index at or after `i` that holds `c`, or the length.
pub open spec fn find_from(s: Seq<char>, i: int, c: char) -> int
    decreases s.len() - i,
{
    if 0 <= i < s.len() {
        if s[i] == c {
            i
        } else {
            find_from(s, i + 1, c)
        }
    } else {
        s.len() as int
    }
}

pub open spec fn i32_max() -> int {
    0x7fff_ffff
}

/// An `ACK [..` line, by the pattern
/// `^ACK\s*\[(\d+)@(\d+)\]\s+\{([^}]*)\}\s*(.*)\n`.
pub open spec fn classify_ack(l: Seq<char>) -> ResponseLine {
    let p2 = digits_end(l, 5);
    let p3 = digits_end(l, p2 + 1);
    let p4 = ws_end(l, p3 + 1);
    let p5 = find_from(l, p4 + 1, '}');
    if !(p2 > 5 && p2 < l.len() && l[p2] == '@' && p3 > p2 + 1 && p3 < l.len() && l[p3] == ']'
        && p4 > p3 + 1 && p4 < l.len() && l[p4] == '{' && p5 < l.len() && l.last() == '\n') {
        ResponseLine::Ignored
    } else {
        let code = digits_value(l.subrange(5, p2));
        let index = digits_value(l.subrange(p2 + 1, p3));
        if code > i32_max() || index > i32_max() {
            ResponseLine::BadNumber
        } else {
            ResponseLine::Ack {
                err_code: code,
                cmd_index: index,
                cur_cmd: l.subrange(p4 + 1, p5),
                msg_text: trim_start(l.subrange(p5 + 1, l.len() - 1)),
            }
        }
    }
}

pub open spec fn binary_key() -> Seq<char> {
    seq!['b', 'i', 'n', 'a', 'r', 'y']
}

/// A `key: value` line, by the pattern `^([^:]*):\s*(.*)\n`.
pub open spec fn classify_field(l: Seq<char>) -> ResponseLine {
    let k = find_from(l, 0, ':');
    if k < l.len() && l.last() == '\n' {
        let key = l.subrange(0, k);
        let value = trim_start(l.subrange(k + 1, l.len() - 1));
        if key == binary_key() {
            match parse_unsigned(value, usize::MAX as int) {
                Some(n) => ResponseLine::Binary(n),
                None => ResponseLine::BadNumber,
            }
        } else {
            ResponseLine::Field(trim(key), trim(value))
        }
    } else {
        ResponseLine::Ignored
    }
}

pub open spec fn ok_line() -> Seq<char> {
    seq!['O', 'K', '\n']
}

pub open spec fn ack_start() -> Seq<char> {
    seq!['A', 'C', 'K', ' ', '[']
}

/// The meaning of one response line.
pub open spec fn classify_line(l: Seq<char>) -> ResponseLine {
    if l == ok_line() {
        ResponseLine::Done
    } else if l.len() >= 5 && l.subrange(0, 5) == ack_start() {
        classify_ack(l)
    } else {
        classify_field(l)
    }
}

/// A response line, read.
pub enum LineKind {
    Done,
    Ack(MpdComErr),
    Field(String, String),
    Binary(usize),
    BadNumber,
    Ignored,
}

impl LineKind {
    pub open spec fn view_line(&self) -> ResponseLine {
        match self {
            LineKind::Done => ResponseLine::Done,
            LineKind::Ack(e) => ResponseLine::Ack {
                err_code: e.err_code as int,
                cmd_index: e.cmd_index as int,
                cur_cmd: e.cur_cmd@,
                msg_text: e.msg_text@,
            },
            LineKind::Field(k, v) => ResponseLine::Field(k@, v@),
            LineKind::Binary(n) => ResponseLine::Binary(*n as int),
            LineKind::BadNumber => ResponseLine::BadNumber,
            LineKind::Ignored => ResponseLine::Ignored,
        }
    }
}

fn ws_end_exec(v: &Vec<char>, i: usize) -> (r: usize)
    requires
        i <= v.len(),
    ensures
        r == ws_end(v@, i as int),
        i <= r <= v.len(),
{
    let mut j = i;
    while j < v.len() && white_space(v[j])
        invariant
            i <= j <= v.len(),
            ws_end(v@, i as int) == ws_end(v@, j as int),
        decreases v.len() - j,
    {
        j = j + 1;
    }
    j
}

fn digits_end_exec(v: &Vec<char>, i: usize) -> (r: usize)
    requires
        i <= v.len(),
    ensures
        r == digits_end(v@, i as int),
        i <= r <= v.len(),
        forall|t: int| i <= t < r ==> #[trigger] is_ascii_digit(v@[t]),
{
    let mut j = i;
    while j < v.len() && '0' <= v[j] && v[j] <= '9'
        invariant
            i <= j <= v.len(),
            digits_end(v@, i as int) == digits_end(v@, j as int),
            forall|t: int| i <= t < j ==> #[trigger] is_ascii_digit(v@[t]),
        decreases v.len() - j,
    {
        j = j + 1;
    }
    j
}

fn find_from_exec(v: &Vec<char>, i: usize, c: char) -> (r: usize)
    requires
        i <= v.len(),
    ensures
        r == find_from(v@, i as int, c),
        i <= r <= v.len(),
        r < v.len() ==> v@[r as int] == c,
{
    let mut j = i;
    while j < v.len() && v[j] != c
        invariant
            i <= j <= v.len(),
            find_from(v@, i as int, c) == find_from(v@, j as int, c),
        decreases v.len() - j,
    {
        j = j + 1;
    }
    j
}

fn classify_ack_exec(v: &Vec<char>) -> (r: LineKind)
    requires
        v.len() >= 5,
    ensures
        r.view_line() == classify_ack(v@),
{
    let n = v.len();
    let p2 = digits_end_exec(v, 5);
    if !(p2 > 5 && p2 < n && v[p2] == '@') {
        return LineKind::Ignored;
    }
    let p3 = digits_end_exec(v, p2 + 1);
    if !(p3 > p2 + 1 && p3 < n && v[p3] == ']') {
        return LineKind::Ignored;
    }
    let p4 = ws_end_exec(v, p3 + 1);
    if !(p4 > p3 + 1 && p4 < n && v[p4] == '{') {
        return LineKind::Ignored;
    }
    let p5 = find_from_exec(v, p4 + 1, '}');
    if !(p5 < n && v[n - 1] == '\n') {
        return LineKind::Ignored;
    }
    assert(is_digits(v@.subrange(5, p2 as int))) by {
        assert forall|t: int| 0 <= t < p2 - 5 implies #[trigger] is_ascii_digit(
            v@.subrange(5, p2 as int)[t],
        ) by {
            assert(v@.subrange(5, p2 as int)[t] == v@[5 + t]);
        }
    }
    assert(is_digits(v@.subrange(p2 + 1, p3 as int))) by {
        assert forall|t: int| 0 <= t < p3 - p2 - 1 implies #[trigger] is_ascii_digit(
            v@.subrange(p2 + 1, p3 as int)[t],
        ) by {
            assert(v@.subrange(p2 + 1, p3 as int)[t] == v@[p2 + 1 + t]);
        }
    }
    let code = parse_digits(v, 5, p2, 0x7fff_ffff);
    let index = parse_digits(v, p2 + 1, p3, 0x7fff_ffff);
    match (code, index) {
        (Some(c), Some(x)) => {
            let cur_cmd = sub_string(v, p4 + 1, p5);
            let m0 = trim_start_index(v, p5 + 1, n - 1);
            let msg_text = sub_string(v, m0, n - 1);
            LineKind::Ack(MpdComErr { err_code: c as i32, cmd_index: x as i32, cur_cmd, msg_text })
        },
        _ => LineKind::BadNumber,
    }
}

fn classify_field_exec(v: &Vec<char>) -> (r: LineKind)
    ensures
        r.view_line() == classify_field(v@),
{
    let n = v.len();
    let k = find_from_exec(v, 0, ':');
    if !(k < n && v[n - 1] == '\n') {
        return LineKind::Ignored;
    }
    let m0 = trim_start_index(v, k + 1, n - 1);
    let is_binary = k == 6 && v[0] == 'b' && v[1] == 'i' && v[2] == 'n' && v[3] == 'a' && v[4]
        == 'r' && v[5] == 'y';
    assert(is_binary == (v@.subrange(0, k as int) == binary_key())) by {
        if v@.subrange(0, k as int) == binary_key() {
            assert(binary_key().len() == 6);
            assert(k == 6);
            assert(v@.subrange(0, k as int)[0] == v@[0]);
            assert(v@.subrange(0, k as int)[5] == v@[5]);
            assert(v@.subrange(0, k as int)[1] == v@[1]);
            assert(v@.subrange(0, k as int)[2] == v@[2]);
            assert(v@.subrange(0, k as int)[3] == v@[3]);
            assert(v@.subrange(0, k as int)[4] == v@[4]);
        }
        if is_binary {
            assert(v@.subrange(0, k as int) =~= binary_key());
        }
    }
    let ghost key = v@.subrange(0, k as int);
    let ghost value = trim_start(v@.subrange(k + 1, n - 1));
    assert(value == v@.subrange(m0 as int, n - 1));
    if is_binary {
        assert((usize::MAX as u64) as int == usize::MAX as int);
        assert(classify_field(v@) == match parse_unsigned(value, usize::MAX as int) {
            Some(n) => ResponseLine::Binary(n),
            None => ResponseLine::BadNumber,
        });
        match parse_unsigned_range(v, m0, n - 1, usize::MAX as u64) {
            Some(x) => {
                assert(x <= usize::MAX);
                let r = LineKind::Binary(x as usize);
                assert(r.view_line() == classify_field(v@));
                r
            },
            None => {
                let r = LineKind::BadNumber;
                assert(r.view_line() == classify_field(v@));
                r
            },
        }
    } else {
        let (ka, kb) = trim_range(v, 0, k);
        let (va, vb) = trim_range(v, m0, n - 1);
        assert(trim(v@.subrange(m0 as int, n - 1)) == trim(trim_start(v@.subrange(k + 1, n - 1))));
        proof {
            let t = v@.subrange(m0 as int, n - 1);
            crate::text::lemma_trim_start_idempotent(v@.subrange(k + 1, n - 1));
            assert(trim_start(t) == t);
        }
        assert(classify_field(v@) == ResponseLine::Field(trim(key), trim(value)));
        let r = LineKind::Field(sub_string(v, ka, kb), sub_string(v, va, vb));
        assert(r.view_line() == classify_field(v@));
        r
    }
}

/// Reads one response line.
pub fn classify(line: &str) -> (r: LineKind)
    ensures
        r.view_line() == classify_line(line@),
{
    let v = str_chars(line);
    let n = v.len();
    if n == 3 && v[0] == 'O' && v[1] == 'K' && v[2] == '\n' {
        assert(v@ =~= ok_line());
        return LineKind::Done;
    }
    assert(v@ != ok_line()) by {
        if v@ == ok_line() {
            assert(v@[0] == 'O' && v@[1] == 'K' && v@[2] == '\n');
        }
    }
    let is_ack = n >= 5 && v[0] == 'A' && v[1] == 'C' && v[2] == 'K' && v[3] == ' ' && v[4]
        == '[';
    assert(is_ack == (v@.len() >= 5 && v@.subrange(0, 5) == ack_start())) by {
        if v@.len() >= 5 && v@.subrange(0, 5) == ack_start() {
            assert(v@.subrange(0, 5)[0] == v@[0]);
            assert(v@.subrange(0, 5)[1] == v@[1]);
            assert(v@.subrange(0, 5)[2] == v@[2]);
            assert(v@.subrange(0, 5)[3] == v@[3]);
            assert(v@.subrange(0, 5)[4] == v@[4]);
        }
        if is_ack {
            assert(v@.subrange(0, 5) =~= ack_start());
        }
    }
    if is_ack {
        classify_ack_exec(&v)
    } else {
        classify_field_exec(&v)
    }
}

} // verus!

verus! {

// ---------------------------------------------------------------------
// Reading a response

/// The abstract state of a response being read.
pub struct ResponseState {
    pub fields: Seq<(Seq<char>, Seq<char>)>,
    pub bin: Option<Seq<u8>>,
    pub err_code: int,
    pub cmd_index: int,
    pub cur_cmd: Seq<char>,
    pub msg_text: Seq<char>,
    pub is_ok: bool,
    pub finished: bool,
}

/// The state before the first line: no fields, and the error that is
/// reported if the response ends without `OK` or `ACK` (code `-1`).
pub open spec fn initial_response() -> ResponseState {
    ResponseState {
        fields: Seq::empty(),
        bin: None,
        err_code: -1,
        cmd_index: 0,
        cur_cmd: Seq::empty(),
        msg_text: Seq::empty(),
        is_ok: false,
        finished: false,
    }
}

/// How one line changes the response.
pub open spec fn apply_line(st: ResponseState, l: Seq<char>) -> ResponseState {
    match classify_line(l) {
        ResponseLine::Done => ResponseState { is_ok: true, finished: true, ..st },
        ResponseLine::Ack { err_code, cmd_index, cur_cmd, msg_text } => ResponseState {
            err_code,
            cmd_index,
            cur_cmd,
            msg_text,
            finished: true,
            ..st
        },
        ResponseLine::Field(k, v) => ResponseState { fields: st.fields.push((k, v)), ..st },
        _ => st,
    }
}

/// The response after the given lines, in order.
pub open spec fn apply_lines(st: ResponseState, lines: Seq<Seq<char>>) -> ResponseState
    decreases lines.len(),
{
    if lines.len() == 0 {
        st
    } else {
        apply_line(apply_lines(st, lines.drop_last()), lines.last())
    }
}

/// The field a `key: value` line reads as.
pub open spec fn line_field(l: Seq<char>) -> (Seq<char>, Seq<char>) {
    match classify_line(l) {
        ResponseLine::Field(k, v) => (k, v),
        _ => (Seq::empty(), Seq::empty()),
    }
}

/// A response made of `key: value` lines and then `OK` succeeds with
/// exactly those fields, in order.
pub proof fn lemma_fields_then_ok(lines: Seq<Seq<char>>)
    requires
        forall|i: int| 0 <= i < lines.len() ==> (#[trigger] classify_line(lines[i])) is Field,
    ensures
        apply_lines(initial_response(), lines.push(ok_line())).is_ok,
        apply_lines(initial_response(), lines.push(ok_line())).finished,
        apply_lines(initial_response(), lines.push(ok_line())).fields == lines.map_values(
            |l: Seq<char>| line_field(l),
        ),
{
    lemma_fields_applied(lines);
    assert(lines.push(ok_line()).drop_last() =~= lines);
    assert(classify_line(ok_line()) == ResponseLine::Done);
}

proof fn lemma_fields_applied(lines: Seq<Seq<char>>)
    requires
        forall|i: int| 0 <= i < lines.len() ==> (#[trigger] classify_line(lines[i])) is Field,
    ensures
        apply_lines(initial_response(), lines).fields == lines.map_values(|l: Seq<char>| line_field(l)),
        !apply_lines(initial_response(), lines).is_ok,
        !apply_lines(initial_response(), lines).finished,
    decreases lines.len(),
{
    if lines.len() > 0 {
        let p = lines.drop_last();
        assert forall|i: int| 0 <= i < p.len() implies (#[trigger] classify_line(p[i])) is Field by {
            assert(p[i] == lines[i]);
        }
        lemma_fields_applied(p);
        assert(classify_line(lines[lines.len() - 1]) is Field);
        assert(lines.map_values(|l: Seq<char>| line_field(l)) =~= p.map_values(|l: Seq<char>| line_field(l)).push(
            line_field(lines.last()),
        ));
    } else {
        assert(lines.map_values(|l: Seq<char>| line_field(l)) =~= Seq::<(Seq<char>, Seq<char>)>::empty());
    }
}

/// What the reader does after a line.
pub enum ReadNext {
    /// Read the next line.
    Line,
    /// Read a binary chunk, then go on.
    Binary,
    /// The response is complete.
    Stop,
    /// A number in the line does not fit its type: the response cannot
    /// be read on, and the daemon stops.
    Malformed,
}

pub open spec fn next_after(l: Seq<char>) -> ReadNext {
    match classify_line(l) {
        ResponseLine::Done => ReadNext::Stop,
        ResponseLine::Ack { .. } => ReadNext::Stop,
        ResponseLine::Binary(_) => ReadNext::Binary,
        ResponseLine::BadNumber => ReadNext::Malformed,
        _ => ReadNext::Line,
    }
}

/// A command's response as it is read, line by line.
pub struct MpdResponse {
    pub ok: MpdComOk,
    pub err: MpdComErr,
    pub is_ok: bool,
    pub finished: bool,
}

impl MpdResponse {
    pub open spec fn state(&self) -> ResponseState {
        ResponseState {
            fields: self.ok.flds.deep_view(),
            bin: match self.ok.bin {
                Some(b) => Some(b@),
                None => None,
            },
            err_code: self.err.err_code as int,
            cmd_index: self.err.cmd_index as int,
            cur_cmd: self.err.cur_cmd@,
            msg_text: self.err.msg_text@,
            is_ok: self.is_ok,
            finished: self.finished,
        }
    }

    pub fn new() -> (r: MpdResponse)
        ensures
            r.state() == initial_response(),
    {
        let r = MpdResponse { ok: MpdComOk::new(), err: MpdComErr::new(-1), is_ok: false, finished: false };
        assert(r.ok.flds.deep_view() =~= Seq::<(Seq<char>, Seq<char>)>::empty());
        assert(r.err.cur_cmd@ =~= Seq::<char>::empty());
        assert(r.err.msg_text@ =~= Seq::<char>::empty());
        r
    }

    /// Takes one line of the response.
    pub fn feed_line(&mut self, line: &str) -> (r: ReadNext)
        ensures
            final(self).state() == apply_line(old(self).state(), line@),
            r == next_after(line@),
    {
        match classify(line) {
            LineKind::Done => {
                self.is_ok = true;
                self.finished = true;
                ReadNext::Stop
            },
            LineKind::Ack(e) => {
                self.err = e;
                self.finished = true;
                ReadNext::Stop
            },
            LineKind::Field(k, v) => {
                let ghost old_flds = self.ok.flds.deep_view();
                self.ok.flds.push((k, v));
                assert(self.ok.flds.deep_view() =~= old_flds.push((k@, v@)));
                ReadNext::Line
            },
            LineKind::Binary(_) => ReadNext::Binary,
            LineKind::BadNumber => ReadNext::Malformed,
            LineKind::Ignored => ReadNext::Line,
        }
    }

    /// Takes the binary chunk after a `binary:` line: `None` when the
    /// connection had nothing more to read, which ends the response.
    pub fn feed_binary(&mut self, chunk: Option<Vec<u8>>) -> (r: ReadNext)
        ensures
            match chunk {
                Some(b) => final(self).state() == (ResponseState {
                    bin: Some(b@),
                    ..old(self).state()
                }) && r == ReadNext::Line,
                None => final(self).state() == (ResponseState {
                    finished: true,
                    ..old(self).state()
                }) && r == ReadNext::Stop,
            },
    {
        match chunk {
            Some(b) => {
                self.ok.bin = Some(b);
                ReadNext::Line
            },
            None => {
                self.finished = true;
                ReadNext::Stop
            },
        }
    }

    /// The connection closed before the response was complete.
    pub fn end_of_stream(&mut self)
        ensures
            final(self).state() == (ResponseState { finished: true, ..old(self).state() }),
    {
        self.finished = true;
    }

    /// The outcome: the fields after `OK`, otherwise the error.
    pub fn result(self) -> (r: MpdComResult)
        ensures
            self.is_ok ==> (r matches Ok(o) && o == self.ok),
            !self.is_ok ==> (r matches Err(e) && e == self.err),
    {
        if self.is_ok {
            Ok(self.ok)
        } else {
            Err(self.err)
        }
    }
}

} // verus!

verus! {

// ---------------------------------------------------------------------
// The status poll

/// A list of `key: value` fields as text.
pub type Fields = Seq<(Seq<char>, Seq<char>)>;

/// `flds` as text.
pub open spec fn fields_of(flds: Vec<(String, String)>) -> Fields {
    flds.deep_view()
}

/// The volume the daemon shows, and whether it is muted.
#[derive(Clone, Copy)]
pub struct VolumeState {
    pub volume: u8,
    pub mute: bool,
}

/// Values that the status poll adds to MPD's status fields.
pub struct StatusExtras {
    pub time: String,
    pub product: String,
    pub version: String,
    pub ws_status_intv: String,
    pub ws_data_intv: String,
    pub spec_enable: bool,
}

pub open spec fn flag_text(b: bool) -> Seq<char> {
    if b {
        "1"@
    } else {
        "0"@
    }
}

pub open spec fn extras_fields(e: StatusExtras) -> Fields {
    seq![
        ("_x_time"@, e.time@),
        ("_x_product"@, e.product@),
        ("_x_version"@, e.version@),
        ("_x_ws_status_intv"@, e.ws_status_intv@),
        ("_x_ws_data_intv"@, e.ws_data_intv@),
        ("_x_spec_enable"@, flag_text(e.spec_enable)),
    ]
}

/// The first index at or after `i` whose key is `k`, or the length.
pub open spec fn key_index(s: Fields, k: Seq<char>, i: int) -> int
    decreases s.len() - i,
{
    if 0 <= i < s.len() {
        if s[i].0 == k {
            i
        } else {
            key_index(s, k, i + 1)
        }
    } else {
        s.len() as int
    }
}

/// MPD's volume read: a number up to 255, or 0 when it does not read as
/// one. It is taken unless the daemon is muted and MPD reports 0, and it
/// ends the mute.
pub open spec fn volume_after(vol: VolumeState, text: Seq<char>) -> VolumeState {
    let v = match parse_unsigned(text, 255) {
        Some(n) => n,
        None => 0,
    };
    if !vol.mute || v > 0 {
        VolumeState { volume: v as u8, mute: false }
    } else {
        vol
    }
}

/// The status fields after the poll: the extras appended; then MPD's
/// first `volume` field taken out and replaced at the end by the daemon's
/// `volume`, `mute` and MPD's own value as `_x_volume`.
pub open spec fn decorated_status(flds: Fields, e: StatusExtras, vol: VolumeState) -> (
    Fields,
    VolumeState,
) {
    let base = flds + extras_fields(e);
    let p = key_index(base, "volume"@, 0);
    if p < base.len() {
        let text = base[p].1;
        let nv = volume_after(vol, text);
        (
            base.remove(p) + seq![
                ("volume"@, decimal(nv.volume as nat)),
                ("mute"@, flag_text(nv.mute)),
                ("_x_volume"@, text),
            ],
            nv,
        )
    } else {
        (base, vol)
    }
}

fn push_field(flds: &mut Vec<(String, String)>, k: &str, v: String)
    ensures
        fields_of(*final(flds)) == fields_of(*old(flds)).push((k@, v@)),
{
    let ghost before = fields_of(*flds);
    flds.push((String::from_str(k), v));
    assert(fields_of(*flds) =~= before.push((k@, v@)));
}

fn flag_string(b: bool) -> (r: String)
    ensures
        r@ == flag_text(b),
{
    if b {
        String::from_str("1")
    } else {
        String::from_str("0")
    }
}

/// Adds the daemon's fields to MPD's status and settles the volume and
/// mute state from MPD's volume.
pub fn decorate_status(flds: &mut Vec<(String, String)>, e: &StatusExtras, vol: &mut VolumeState)
    ensures
        (fields_of(*final(flds)), *final(vol)) == decorated_status(
            fields_of(*old(flds)),
            *e,
            *old(vol),
        ),
{
    let ghost f0 = fields_of(*flds);
    push_field(flds, "_x_time", e.time.clone());
    push_field(flds, "_x_product", e.product.clone());
    push_field(flds, "_x_version", e.version.clone());
    push_field(flds, "_x_ws_status_intv", e.ws_status_intv.clone());
    push_field(flds, "_x_ws_data_intv", e.ws_data_intv.clone());
    push_field(flds, "_x_spec_enable", flag_string(e.spec_enable));
    let ghost base = fields_of(*flds);
    assert(base =~= f0 + extras_fields(*e));
    let key = String::from_str("volume");
    let mut p: usize = 0;
    while p < flds.len() && !(flds[p].0 == key)
        invariant
            p <= flds.len(),
            fields_of(*flds) == base,
            key@ == "volume"@,
            key_index(base, "volume"@, 0) == key_index(base, "volume"@, p as int),
        decreases flds.len() - p,
    {
        assert(base[p as int].0 == flds@[p as int].0@);
        p = p + 1;
    }
    if p < flds.len() {
        assert(base[p as int].0 == flds@[p as int].0@);
        let ghost before = *flds;
        let (_, text) = flds.remove(p);
        assert(fields_of(*flds) =~= base.remove(p as int));
        assert(text@ == base[p as int].1);
        let tv = str_chars(text.as_str());
        let v = parse_unsigned_range(&tv, 0, tv.len(), 255);
        assert(tv@.subrange(0, tv@.len() as int) =~= text@);
        let v: u8 = match v {
            Some(x) => x as u8,
            None => 0,
        };
        if !vol.mute || v > 0 {
            vol.volume = v;
            vol.mute = false;
        }
        push_field(flds, "volume", decimal_string(vol.volume as u64));
        push_field(flds, "mute", flag_string(vol.mute));
        push_field(flds, "_x_volume", text);
        assert(fields_of(*flds) =~= base.remove(p as int) + seq![
            ("volume"@, decimal(vol.volume as nat)),
            ("mute"@, flag_text(vol.mute)),
            ("_x_volume"@, base[p as int].1),
        ]);
    }
}

/// The values of the `songid` and `nextsongid` fields, in order.
pub open spec fn song_ids(s: Fields) -> Seq<Seq<char>>
    decreases s.len(),
{
    if s.len() == 0 {
        Seq::empty()
    } else {
        let rest = song_ids(s.drop_last());
        if s.last().0 == "songid"@ || s.last().0 == "nextsongid"@ {
            rest.push(s.last().1)
        } else {
            rest
        }
    }
}

/// The song ids whose playlist entries the status poll fetches.
pub fn collect_song_ids(flds: &Vec<(String, String)>) -> (r: Vec<String>)
    ensures
        r.deep_view() == song_ids(fields_of(*flds)),
{
    let k1 = String::from_str("songid");
    let k2 = String::from_str("nextsongid");
    let mut r: Vec<String> = Vec::new();
    let mut i: usize = 0;
    while i < flds.len()
        invariant
            i <= flds.len(),
            k1@ == "songid"@,
            k2@ == "nextsongid"@,
            r.deep_view() == song_ids(fields_of(*flds).take(i as int)),
        decreases flds.len() - i,
    {
        let ghost t = fields_of(*flds).take(i + 1);
        assert(t.drop_last() =~= fields_of(*flds).take(i as int));
        assert(t.last() == (flds@[i as int].0@, flds@[i as int].1@));
        if flds[i].0 == k1 || flds[i].0 == k2 {
            let ghost before = r.deep_view();
            r.push(flds[i].1.clone());
            assert(r.deep_view() =~= before.push(flds@[i as int].1@));
        }
        i = i + 1;
    }
    assert(fields_of(*flds).take(i as int) =~= fields_of(*flds));
    r
}

/// The command that fetches a playlist entry: `playlistid <id>`.
pub fn playlistid_command(id: &str) -> (r: String)
    ensures
        r@ == "playlistid "@ + id@,
{
    let mut s = String::from_str("playlistid ");
    s.append(id);
    s
}

/// Appends the fields of a playlist entry; a failed fetch adds nothing.
pub fn merge_fields(flds: &mut Vec<(String, String)>, reply: MpdComResult)
    ensures
        reply matches Ok(o) ==> fields_of(*final(flds)) == fields_of(*old(flds)) + fields_of(
            o.flds,
        ),
        reply is Err ==> *final(flds) == *old(flds),
{
    if let Ok(o) = reply {
        let mut i: usize = 0;
        let ghost f0 = fields_of(*flds);
        while i < o.flds.len()
            invariant
                i <= o.flds.len(),
                fields_of(*flds) == f0 + fields_of(o.flds).take(i as int),
            decreases o.flds.len() - i,
        {
            let ghost before = fields_of(*flds);
            flds.push((o.flds[i].0.clone(), o.flds[i].1.clone()));
            assert(fields_of(*flds) =~= before.push(fields_of(o.flds)[i as int]));
            assert(fields_of(o.flds).take(i + 1) =~= fields_of(o.flds).take(i as int).push(
                fields_of(o.flds)[i as int],
            ));
            i = i + 1;
        }
        assert(fields_of(o.flds).take(i as int) =~= fields_of(o.flds));
    }
}

} // verus!

verus! {

// ---------------------------------------------------------------------
// Requests

/// A request as text.
pub enum RequestSpec {
    Nop,
    Cmd(Seq<char>),
    SetVol(Seq<char>),
    SetMute(Seq<char>),
    AddUrl(Seq<char>, Seq<char>),
    AddAuxIn(Seq<char>),
    TestSound,
    Shutdown,
}

impl MpdComRequestType {
    pub open spec fn spec(&self) -> RequestSpec {
        match self {
            MpdComRequestType::Nop => RequestSpec::Nop,
            MpdComRequestType::Cmd(c) => RequestSpec::Cmd(c@),
            MpdComRequestType::SetVol(v) => RequestSpec::SetVol(v@),
            MpdComRequestType::SetMute(m) => RequestSpec::SetMute(m@),
            MpdComRequestType::AddUrl(p) => RequestSpec::AddUrl(p.0@, p.1@),
            MpdComRequestType::AddAuxIn(n) => RequestSpec::AddAuxIn(n@),
            MpdComRequestType::TestSound => RequestSpec::TestSound,
            MpdComRequestType::Shutdown => RequestSpec::Shutdown,
        }
    }
}

/// A text in lower case as `str::to_lowercase` makes it: on ASCII text,
/// `A`..`Z` turned to `a`..`z`.
pub open spec fn lower_text(s: Seq<char>) -> Seq<char> {
    if is_ascii_text(s) {
        ascii_lower(s)
    } else {
        lowercase(s)
    }
}

/// Whether a `setmute` argument asks for mute: `1`, `true` or `on` in
/// any case.
pub open spec fn mute_word(s: Seq<char>) -> bool {
    let l = lower_text(s);
    l == "1"@ || l == "true"@ || l == "on"@
}

pub fn is_mute_word(s: &str) -> (r: bool)
    ensures
        r == mute_word(s@),
{
    let l = to_lowercase(s);
    l == String::from_str("1") || l == String::from_str("true") || l == String::from_str("on")
}

/// What the connection task does with a request.
pub enum RequestPlan {
    /// Answer `Ok` with no fields and leave the task.
    Stop,
    /// Answer at once.
    Reply(MpdComResult),
    /// Run the command and answer with its outcome.
    Execute(String),
    /// Run the command; once it has been answered, the mute flag takes
    /// the given value.
    ExecuteMute(String, bool),
    /// Run the test sounds.
    TestSound,
}

pub enum PlanSpec {
    Stop,
    /// An `Ok` answer: its fields and its binary part.
    ReplyOk(Seq<(Seq<char>, Seq<char>)>, Option<Seq<u8>>),
    /// An error answer: code, command index, command and message.
    ReplyErr(int, int, Seq<char>, Seq<char>),
    Execute(Seq<char>),
    ExecuteMute(Seq<char>, bool),
    TestSound,
}

/// An `Ok` answer with no fields and no binary part.
pub open spec fn bare_ok() -> PlanSpec {
    PlanSpec::ReplyOk(Seq::empty(), None)
}

/// An error answer with only a code (`MpdComErr::new(code)`).
pub open spec fn bare_err(code: int) -> PlanSpec {
    PlanSpec::ReplyErr(code, 0, Seq::empty(), Seq::empty())
}

pub open spec fn bin_view(b: Option<Vec<u8>>) -> Option<Seq<u8>> {
    match b {
        Some(v) => Some(v@),
        None => None,
    }
}

impl RequestPlan {
    /// The plan as text, answers included whole.
    pub open spec fn spec(&self) -> PlanSpec {
        match self {
            RequestPlan::Stop => PlanSpec::Stop,
            RequestPlan::Reply(Ok(o)) => PlanSpec::ReplyOk(fields_of(o.flds), bin_view(o.bin)),
            RequestPlan::Reply(Err(e)) => PlanSpec::ReplyErr(
                e.err_code as int,
                e.cmd_index as int,
                e.cur_cmd@,
                e.msg_text@,
            ),
            RequestPlan::Execute(c) => PlanSpec::Execute(c@),
            RequestPlan::ExecuteMute(c, m) => PlanSpec::ExecuteMute(c@, *m),
            RequestPlan::TestSound => PlanSpec::TestSound,
        }
    }
}

/// The plan for a request, and the volume state after planning it.
///
/// `setvol n` with `n` up to 100 is run on MPD, or, while muted, only
/// remembered; any other volume is refused with `-3`. `setmute` runs
/// `setvol 0` or restores the remembered volume. The volume commands are
/// planned whether or not there is a connection (running one needs it).
/// A plain command is run when connected and is not `close`, else
/// refused with `-2`. Requests that the task does not serve are refused
/// with `-3`.
pub open spec fn plan_spec(req: RequestSpec, vol: VolumeState, connected: bool) -> (
    PlanSpec,
    VolumeState,
) {
    match req {
        RequestSpec::Shutdown => (PlanSpec::Stop, vol),
        RequestSpec::SetVol(v) => match parse_unsigned(v, 255) {
            Some(n) => if n <= 100 {
                if vol.mute {
                    (bare_ok(), VolumeState { volume: n as u8, ..vol })
                } else {
                    (PlanSpec::Execute("setvol "@ + decimal(n as nat)), vol)
                }
            } else {
                (bare_err(-3), vol)
            },
            None => (bare_err(-3), vol),
        },
        RequestSpec::SetMute(m) => if mute_word(m) {
            (PlanSpec::ExecuteMute("setvol 0"@, true), vol)
        } else {
            (PlanSpec::ExecuteMute("setvol "@ + decimal(vol.volume as nat), false), vol)
        },
        RequestSpec::TestSound => (PlanSpec::TestSound, vol),
        RequestSpec::Cmd(c) => if c != "close"@ && connected {
            (PlanSpec::Execute(c), vol)
        } else {
            (bare_err(-2), vol)
        },
        _ => (bare_err(-3), vol),
    }
}

fn setvol_command(n: u8) -> (r: String)
    ensures
        r@ == "setvol "@ + decimal(n as nat),
{
    let mut s = String::from_str("setvol ");
    let d = decimal_string(n as u64);
    s.append(d.as_str());
    s
}

/// Decides what to do with a request.
pub fn plan_request(req: &MpdComRequestType, vol: &mut VolumeState, connected: bool) -> (r:
    RequestPlan)
    ensures
        (r.spec(), *final(vol)) == plan_spec(req.spec(), *old(vol), connected),
{
    match req {
        MpdComRequestType::Shutdown => RequestPlan::Stop,
        MpdComRequestType::SetVol(v) => {
            let cs = str_chars(v.as_str());
            let n = parse_unsigned_range(&cs, 0, cs.len(), 255);
            assert(cs@.subrange(0, cs@.len() as int) =~= v@);
            match n {
                Some(n) => {
                    if n <= 100 {
                        if vol.mute {
                            vol.volume = n as u8;
                            RequestPlan::Reply(Ok(MpdComOk::new()))
                        } else {
                            RequestPlan::Execute(setvol_command(n as u8))
                        }
                    } else {
                        RequestPlan::Reply(Err(MpdComErr::new(-3)))
                    }
                },
                None => RequestPlan::Reply(Err(MpdComErr::new(-3))),
            }
        },
        MpdComRequestType::SetMute(m) => {
            let mute = is_mute_word(m.as_str());
            if mute {
                RequestPlan::ExecuteMute(String::from_str("setvol 0"), true)
            } else {
                RequestPlan::ExecuteMute(setvol_command(vol.volume), false)
            }
        },
        MpdComRequestType::TestSound => RequestPlan::TestSound,
        MpdComRequestType::Cmd(c) => {
            if !(*c == String::from_str("close")) && connected {
                RequestPlan::Execute(c.clone())
            } else {
                RequestPlan::Reply(Err(MpdComErr::new(-2)))
            }
        },
        _ => RequestPlan::Reply(Err(MpdComErr::new(-3))),
    }
}

/// The answer when a command could not be run because the connection
/// failed: `-2`.
pub fn connection_lost() -> (r: MpdComResult)
    ensures
        (r matches Err(e) && e.err_code == -2),
{
    Err(MpdComErr::new(-2))
}

// ---------------------------------------------------------------------
// Test sounds

/// `file://<path>` and the command that adds it to the queue,
/// `addid <quoted url>`.
pub fn testsound_command(path: &str) -> (r: (String, String))
    ensures
        r.0@ == "file://"@ + path@,
        r.1@ == "addid "@ + quoted("file://"@ + path@),
{
    let mut url = String::from_str("file://");
    url.append(path);
    let mut cmd = String::from_str("addid ");
    let q = quote_arg(url.as_str());
    cmd.append(q.as_str());
    (url, cmd)
}

/// The collected outcome of adding the test sounds.
pub struct TestSoundRun {
    pub ok: MpdComOk,
    pub err: Option<MpdComErr>,
}

impl TestSoundRun {
    pub fn new() -> (r: TestSoundRun)
        ensures
            r.ok.flds@.len() == 0,
            r.ok.bin is None,
            r.err is None,
    {
        TestSoundRun { ok: MpdComOk::new(), err: None }
    }

    /// Takes MPD's answer to one `addid`: on success the `file` and
    /// `Name` fields and MPD's fields are added and the run goes on; on
    /// an error the run stops with it.
    pub fn accept(&mut self, url: String, name: String, reply: MpdComResult) -> (go_on: bool)
        ensures
            match reply {
                Ok(o) => go_on && fields_of(final(self).ok.flds) == fields_of(old(self).ok.flds)
                    + seq![("file"@, url@), ("Name"@, name@)] + fields_of(o.flds)
                    && final(self).err == old(self).err && final(self).ok.bin == old(self).ok.bin,
                Err(e) => !go_on && final(self).err == Some(e) && final(self).ok == old(self).ok,
            },
    {
        match reply {
            Ok(o) => {
                push_field(&mut self.ok.flds, "file", url);
                push_field(&mut self.ok.flds, "Name", name);
                merge_fields(&mut self.ok.flds, Ok(o));
                true
            },
            Err(e) => {
                self.err = Some(e);
                false
            },
        }
    }

    /// The answer to the request: the first error, or all fields.
    pub fn result(self) -> (r: MpdComResult)
        ensures
            match self.err {
                Some(e) => (r matches Err(x) && x == e),
                None => (r matches Ok(o) && o == self.ok),
            },
    {
        match self.err {
            Some(e) => Err(e),
            None => Ok(self.ok),
        }
    }
}

// ---------------------------------------------------------------------
// Connection timing

/// Ten seconds between connection attempts.
pub const CONN_RETRY_NANOS: u64 = 10_000_000_000;

/// A quarter second between status polls.
pub const STATUS_INTERVAL_NANOS: u64 = 250_000_000;

/// Whether to try to connect: not connected, and no attempt yet or the
/// last one more than ten seconds ago.
pub fn should_connect(connected: bool, since_last_try: Option<u64>) -> (r: bool)
    ensures
        r == (!connected && match since_last_try {
            None => true,
            Some(t) => t > CONN_RETRY_NANOS,
        }),
{
    !connected && match since_last_try {
        None => true,
        Some(t) => t > CONN_RETRY_NANOS,
    }
}

/// Whether to poll MPD's status: connected, and no poll yet or the last
/// one more than a quarter second ago.
pub fn should_poll_status(connected: bool, since_last_poll: Option<u64>) -> (r: bool)
    ensures
        r == (connected && match since_last_poll {
            None => true,
            Some(t) => t > STATUS_INTERVAL_NANOS,
        }),
{
    connected && match since_last_poll {
        None => true,
        Some(t) => t > STATUS_INTERVAL_NANOS,
    }
}

/// MPD greets with `OK MPD <version>`; the version is the trimmed rest.
/// Any other greeting refuses the connection.
pub fn banner_version(line: &str) -> (r: Option<String>)
    ensures
        match r {
            Some(v) => line@.len() >= 7 && line@.subrange(0, 7) == "OK MPD "@ && v@ == trim(
                line@.skip(7),
            ),
            None => !(line@.len() >= 7 && line@.subrange(0, 7) == "OK MPD "@),
        },
{
    let v = str_chars(line);
    let p = str_chars("OK MPD ");
    proof {
        reveal_strlit("OK MPD ");
    }
    assert(p@.len() == 7);
    if v.len() < 7 {
        return None;
    }
    let mut i: usize = 0;
    while i < 7
        invariant
            i <= 7 <= v.len(),
            p@ == "OK MPD "@,
            p@.len() == 7,
            v@ == line@,
            forall|t: int| 0 <= t < i ==> v@[t] == p@[t],
        decreases 7 - i,
    {
        if v[i] != p[i] {
            assert(v@.subrange(0, 7)[i as int] != "OK MPD "@[i as int]);
            return None;
        }
        i = i + 1;
    }
    assert(v@.subrange(0, 7) =~= "OK MPD "@);
    let (a, b) = trim_range(&v, 7, v.len());
    assert(v@.subrange(7, v@.len() as int) =~= line@.skip(7));
    Some(sub_string(&v, a, b))
}

// ---------------------------------------------------------------------
// Laws of the volume and mute handling

proof fn lemma_key_index_at(s: Fields, k: Seq<char>, start: int, i: int)
    requires
        0 <= start <= i < s.len(),
        s[i].0 == k,
        forall|j: int| start <= j < i ==> s[j].0 != k,
    ensures
        key_index(s, k, start) == i,
    decreases i - start,
{
    if start < i {
        lemma_key_index_at(s, k, start + 1, i);
    }
}

/// When MPD reports a volume above 0, the daemon takes that volume and
/// is no longer muted, whether or not it was muted before; the status
/// then ends with that `volume`, `mute` `0` and MPD's own text as
/// `_x_volume`.
pub proof fn lemma_reported_volume_unmutes(flds: Fields, e: StatusExtras, vol: VolumeState, i: int, n: int)
    requires
        0 <= i < flds.len(),
        flds[i].0 == "volume"@,
        forall|j: int| 0 <= j < i ==> flds[j].0 != "volume"@,
        parse_unsigned(flds[i].1, 255) == Some(n),
        0 < n,
    ensures
        ({
            let (out, nv) = decorated_status(flds, e, vol);
            &&& nv.volume == n
            &&& !nv.mute
            &&& out.len() >= 3
            &&& out[out.len() - 3] == ("volume"@, decimal(n as nat))
            &&& out[out.len() - 2] == ("mute"@, "0"@)
            &&& out[out.len() - 1] == ("_x_volume"@, flds[i].1)
        }),
{
    let base = flds + extras_fields(e);
    assert(base[i] == flds[i]);
    assert forall|j: int| 0 <= j < i implies base[j].0 != "volume"@ by {
        assert(base[j] == flds[j]);
    }
    lemma_key_index_at(base, "volume"@, 0, i);
    reveal_strlit("0");
}

/// While the daemon is muted, a volume of 0 from MPD (which muting it
/// set) keeps the mute and the remembered volume; the status reports
/// that volume and `mute` `1`.
pub proof fn lemma_muted_zero_kept(flds: Fields, e: StatusExtras, vol: VolumeState, i: int)
    requires
        vol.mute,
        0 <= i < flds.len(),
        flds[i].0 == "volume"@,
        forall|j: int| 0 <= j < i ==> flds[j].0 != "volume"@,
        parse_unsigned(flds[i].1, 255) == Some(0int),
    ensures
        ({
            let (out, nv) = decorated_status(flds, e, vol);
            &&& nv == vol
            &&& out.len() >= 3
            &&& out[out.len() - 3] == ("volume"@, decimal(vol.volume as nat))
            &&& out[out.len() - 2] == ("mute"@, "1"@)
        }),
{
    let base = flds + extras_fields(e);
    assert(base[i] == flds[i]);
    assert forall|j: int| 0 <= j < i implies base[j].0 != "volume"@ by {
        assert(base[j] == flds[j]);
    }
    lemma_key_index_at(base, "volume"@, 0, i);
}

/// A `setmute` argument that reads `1`, `true` or `on` in any case of
/// ASCII letters mutes: the plan runs `setvol 0` and sets the mute flag.
/// Any other ASCII argument unmutes: it restores the remembered volume
/// and clears the flag. The volume state is left as it is either way.
pub proof fn lemma_mute_words(m: Seq<char>, vol: VolumeState, connected: bool)
    requires
        is_ascii_text(m),
    ensures
        (ascii_lower(m) == "1"@ || ascii_lower(m) == "true"@ || ascii_lower(m) == "on"@)
            ==> plan_spec(RequestSpec::SetMute(m), vol, connected) == (
            PlanSpec::ExecuteMute("setvol 0"@, true),
            vol,
        ),
        !(ascii_lower(m) == "1"@ || ascii_lower(m) == "true"@ || ascii_lower(m) == "on"@)
            ==> plan_spec(RequestSpec::SetMute(m), vol, connected) == (
            PlanSpec::ExecuteMute("setvol "@ + decimal(vol.volume as nat), false),
            vol,
        ),
{
}

/// `1`, `true`, `TRUE`, `On` and `ON` mute; `0` and `off` do not.
pub proof fn lemma_mute_word_examples()
    ensures
        mute_word("1"@),
        mute_word("true"@),
        mute_word("TRUE"@),
        mute_word("On"@),
        mute_word("ON"@),
        !mute_word("0"@),
        !mute_word("off"@),
{
    reveal_strlit("1");
    reveal_strlit("true");
    reveal_strlit("TRUE");
    reveal_strlit("On");
    reveal_strlit("ON");
    reveal_strlit("on");
    reveal_strlit("0");
    reveal_strlit("off");
    assert(ascii_lower("1"@) =~= "1"@);
    assert(ascii_lower("true"@) =~= "true"@);
    assert(ascii_lower("TRUE"@) =~= "true"@);
    assert(ascii_lower("On"@) =~= "on"@);
    assert(ascii_lower("ON"@) =~= "on"@);
    assert(ascii_lower("0"@) =~= "0"@);
    assert(ascii_lower("off"@) =~= "off"@);
    assert(is_ascii_text("0"@));
    assert("0"@[0] != "1"@[0]);
    assert("0"@ != "1"@);
    assert(is_ascii_text("off"@));
}

} // verus!
