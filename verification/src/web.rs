//! Rules of the web front end: the safe form of a requested file path,
//! the file that a route serves, byte ranges, and the requests that the
//! command routes send to the MPD and Bluetooth tasks.

use vstd::prelude::*;
use crate::text::{str_chars, string_from_chars, trim, trim_end, trim_end_string, trim_range,
    to_lowercase, lowercase, push_char, sub_string};
use crate::mpdcom::{MpdComRequestType, RequestSpec, quoted, quote_arg};
use crate::btctrl::{BtctrlRequestType, BtctrlRepryType};

verus! {

// ---------------------------------------------------------------------
// Paths

/// `str::split(sep)`: the pieces between separators, empty ones included.
pub open spec fn split_on(s: Seq<char>, sep: char) -> Seq<Seq<char>>
    decreases s.len(),
{
    if s.len() == 0 {
        seq![Seq::empty()]
    } else {
        let r = split_on(s.drop_last(), sep);
        if s.last() == sep {
            r.push(Seq::empty())
        } else {
            r.update(r.len() - 1, r.last().push(s.last()))
        }
    }
}

/// The pieces joined with `sep` between them (`[..].join(sep)`).
pub open spec fn join_with(segs: Seq<Seq<char>>, sep: char) -> Seq<char>
    decreases segs.len(),
{
    if segs.len() == 0 {
        Seq::empty()
    } else if segs.len() == 1 {
        segs[0]
    } else {
        join_with(segs.drop_last(), sep).push(sep) + segs.last()
    }
}

/// One step of path resolution: `\` or a `..` above the root rejects the
/// path, empty and `.` segments are dropped, `..` drops the segment
/// before it, any other segment is kept.
pub open spec fn push_segment(st: Option<Seq<Seq<char>>>, seg: Seq<char>) -> Option<
    Seq<Seq<char>>,
> {
    match st {
        None => None,
        Some(p) => if seg == "\\"@ {
            None
        } else if seg.len() == 0 || seg == "."@ {
            Some(p)
        } else if seg == ".."@ {
            if p.len() == 0 {
                None
            } else {
                Some(p.drop_last())
            }
        } else {
            Some(p.push(seg))
        },
    }
}

pub open spec fn resolve_segments(segs: Seq<Seq<char>>) -> Option<Seq<Seq<char>>>
    decreases segs.len(),
{
    if segs.len() == 0 {
        Some(Seq::empty())
    } else {
        push_segment(resolve_segments(segs.drop_last()), segs.last())
    }
}

/// The resolved form of a `/`-separated path, or `None` when it is
/// rejected.
pub open spec fn resolve_path(s: Seq<char>) -> Option<Seq<char>> {
    match resolve_segments(split_on(s, '/')) {
        Some(p) => Some(join_with(p, '/')),
        None => None,
    }
}

/// A segment that survives resolution.
pub open spec fn is_plain_segment(seg: Seq<char>) -> bool {
    &&& seg.len() > 0
    &&& seg != "."@
    &&& seg != ".."@
    &&& seg != "\\"@
    &&& !seg.contains('/')
}

/// The segments of a stack of character vectors, as text.
pub open spec fn segs_view(stack: Seq<Vec<char>>) -> Seq<Seq<char>> {
    stack.map_values(|v: Vec<char>| v@)
}

fn is_text(v: &Vec<char>, t: &str) -> (r: bool)
    ensures
        r == (v@ == t@),
{
    let tv = str_chars(t);
    if v.len() != tv.len() {
        return false;
    }
    let mut i: usize = 0;
    while i < v.len()
        invariant
            i <= v.len() == tv.len(),
            tv@ == t@,
            forall|j: int| 0 <= j < i ==> v@[j] == tv@[j],
        decreases v.len() - i,
    {
        if v[i] != tv[i] {
            return false;
        }
        i = i + 1;
    }
    assert(v@ =~= tv@);
    true
}

fn apply_segment(stack: &mut Vec<Vec<char>>, seg: Vec<char>) -> (ok: bool)
    ensures
        ok ==> push_segment(Some(segs_view(old(stack)@)), seg@) == Some(segs_view(final(stack)@)),
        !ok ==> push_segment(Some(segs_view(old(stack)@)), seg@) is None,
{
    if is_text(&seg, "\\") {
        false
    } else if seg.len() == 0 || is_text(&seg, ".") {
        true
    } else if is_text(&seg, "..") {
        if stack.len() == 0 {
            false
        } else {
            let ghost before = segs_view(stack@);
            stack.pop();
            assert(segs_view(stack@) =~= before.drop_last());
            true
        }
    } else {
        let ghost before = segs_view(stack@);
        stack.push(seg);
        assert(segs_view(stack@) =~= before.push(seg@));
        true
    }
}

fn join_segments(stack: &Vec<Vec<char>>) -> (r: String)
    ensures
        r@ == join_with(segs_view(stack@), '/'),
{
    let mut out: Vec<char> = Vec::new();
    let mut i: usize = 0;
    while i < stack.len()
        invariant
            i <= stack.len(),
            out@ == join_with(segs_view(stack@).take(i as int), '/'),
        decreases stack.len() - i,
    {
        let ghost pre = segs_view(stack@).take(i as int);
        let ghost nxt = segs_view(stack@).take(i + 1);
        assert(nxt.drop_last() =~= pre);
        if i > 0 {
            out.push('/');
        }
        let seg = &stack[i];
        let mut k: usize = 0;
        let ghost base = out@;
        while k < seg.len()
            invariant
                k <= seg.len(),
                out@ == base + seg@.take(k as int),
            decreases seg.len() - k,
        {
            out.push(seg[k]);
            assert(seg@.take(k + 1) =~= seg@.take(k as int).push(seg@[k as int]));
            k = k + 1;
        }
        assert(seg@.take(k as int) =~= seg@);
        if i == 0 {
            assert(out@ =~= nxt[0]);
        } else {
            assert(out@ =~= join_with(pre, '/').push('/') + nxt.last());
        }
        i = i + 1;
    }
    assert(segs_view(stack@).take(i as int) =~= segs_view(stack@));
    string_from_chars(out.as_slice())
}

/// Resolves a `/`-separated path: empty and `.` segments are dropped,
/// `..` goes up one segment; a `\` segment, or a `..` with nothing to go
/// up from, rejects the path.
pub fn check_path(path: &str) -> (r: Option<String>)
    ensures
        match resolve_path(path@) {
            Some(p) => (r matches Some(x) && x@ == p),
            None => r is None,
        },
{
    let v = str_chars(path);
    let mut stack: Vec<Vec<char>> = Vec::new();
    let mut cur: Vec<char> = Vec::new();
    let mut failed = false;
    let mut i: usize = 0;
    assert(v@.take(0) =~= Seq::<char>::empty());
    assert(split_on(Seq::<char>::empty(), '/') =~= seq![Seq::<char>::empty()]);
    while i < v.len()
        invariant
            i <= v.len(),
            v@ == path@,
            split_on(v@.take(i as int), '/').len() >= 1,
            split_on(v@.take(i as int), '/').last() == cur@,
            !failed ==> resolve_segments(split_on(v@.take(i as int), '/').drop_last()) == Some(
                segs_view(stack@),
            ),
            failed ==> resolve_segments(split_on(v@.take(i as int), '/').drop_last()) is None,
        decreases v.len() - i,
    {
        let c = v[i];
        let ghost pre = v@.take(i as int);
        let ghost nxt = v@.take(i + 1);
        assert(nxt.drop_last() =~= pre);
        let ghost sp = split_on(pre, '/');
        if c == '/' {
            assert(split_on(nxt, '/') == sp.push(Seq::<char>::empty()));
            assert(split_on(nxt, '/').drop_last() =~= sp);
            assert(sp =~= sp.drop_last().push(sp.last()));
            let seg = cur;
            cur = Vec::new();
            if !failed {
                if !apply_segment(&mut stack, seg) {
                    failed = true;
                }
            }
            assert(cur@ =~= Seq::<char>::empty());
        } else {
            assert(split_on(nxt, '/') == sp.update(sp.len() - 1, sp.last().push(c)));
            assert(split_on(nxt, '/').drop_last() =~= sp.drop_last());
            cur.push(c);
        }
        i = i + 1;
    }
    assert(v@.take(i as int) =~= v@);
    let ghost sp = split_on(v@, '/');
    assert(sp =~= sp.drop_last().push(sp.last()));
    if failed {
        return None;
    }
    if !apply_segment(&mut stack, cur) {
        return None;
    }
    Some(join_segments(&stack))
}

// ---------------------------------------------------------------------
// Laws of path resolution

/// Appending text without separators extends the last piece.
proof fn lemma_split_extend(x: Seq<char>, b: Seq<char>, sep: char)
    requires
        !b.contains(sep),
    ensures
        split_on(x + b, sep) == split_on(x, sep).update(
            split_on(x, sep).len() - 1,
            split_on(x, sep).last() + b,
        ),
        split_on(x, sep).len() >= 1,
    decreases b.len(),
{
    lemma_split_len(x, sep);
    if b.len() == 0 {
        assert(x + b =~= x);
        assert(split_on(x, sep).last() + b =~= split_on(x, sep).last());
        assert(split_on(x, sep).update(split_on(x, sep).len() - 1, split_on(x, sep).last())
            =~= split_on(x, sep));
    } else {
        let b0 = b.drop_last();
        assert(!b0.contains(sep)) by {
            if b0.contains(sep) {
                let i = choose|i: int| 0 <= i < b0.len() && b0[i] == sep;
                assert(b[i] == sep);
            }
        }
        lemma_split_extend(x, b0, sep);
        assert((x + b).drop_last() =~= x + b0);
        assert((x + b).last() == b.last());
        assert(b.last() != sep) by {
            assert(b[b.len() - 1] == b.last());
        }
        lemma_split_len(x + b0, sep);
        assert(split_on(x, sep).last() + b =~= (split_on(x, sep).last() + b0).push(b.last()));
        assert(split_on(x + b, sep) =~= split_on(x, sep).update(
            split_on(x, sep).len() - 1,
            split_on(x, sep).last() + b,
        ));
    }
}

proof fn lemma_split_len(x: Seq<char>, sep: char)
    ensures
        split_on(x, sep).len() >= 1,
    decreases x.len(),
{
    if x.len() > 0 {
        lemma_split_len(x.drop_last(), sep);
    }
}

/// Splitting the joined pieces gives the pieces back, when none holds
/// the separator.
proof fn lemma_split_join(q: Seq<Seq<char>>, sep: char)
    requires
        q.len() >= 1,
        forall|i: int| 0 <= i < q.len() ==> !(#[trigger] q[i]).contains(sep),
    ensures
        split_on(join_with(q, sep), sep) == q,
    decreases q.len(),
{
    if q.len() == 1 {
        lemma_split_extend(Seq::empty(), q[0], sep);
        assert(Seq::<char>::empty() + q[0] =~= q[0]);
        assert(split_on(Seq::<char>::empty(), sep) =~= seq![Seq::<char>::empty()]);
        assert(Seq::<char>::empty() + q[0] =~= q[0]);
        assert(split_on(q[0], sep) =~= q);
    } else {
        let q0 = q.drop_last();
        assert forall|i: int| 0 <= i < q0.len() implies !(#[trigger] q0[i]).contains(sep) by {
            assert(q0[i] == q[i]);
        }
        lemma_split_join(q0, sep);
        let a = join_with(q0, sep).push(sep);
        assert(a.drop_last() =~= join_with(q0, sep));
        assert(split_on(a, sep) =~= q0.push(Seq::<char>::empty()));
        assert(!q.last().contains(sep)) by {
            assert(q[q.len() - 1] == q.last());
        }
        lemma_split_extend(a, q.last(), sep);
        assert(Seq::<char>::empty() + q.last() =~= q.last());
        assert(split_on(join_with(q, sep), sep) =~= q);
    }
}

/// Pieces of a split never hold the separator.
proof fn lemma_split_pieces(s: Seq<char>, sep: char)
    ensures
        forall|i: int|
            0 <= i < split_on(s, sep).len() ==> !(#[trigger] split_on(s, sep)[i]).contains(sep),
    decreases s.len(),
{
    lemma_split_len(s, sep);
    if s.len() > 0 {
        lemma_split_pieces(s.drop_last(), sep);
        lemma_split_len(s.drop_last(), sep);
        let r = split_on(s.drop_last(), sep);
        if s.last() != sep {
            let nl = r.last().push(s.last());
            assert(!nl.contains(sep)) by {
                if nl.contains(sep) {
                    let i = choose|i: int| 0 <= i < nl.len() && nl[i] == sep;
                    if i < r.last().len() {
                        assert(r[r.len() - 1][i] == sep);
                    }
                }
            }
        }
    }
}

/// Resolution keeps only plain segments.
proof fn lemma_resolve_plain(segs: Seq<Seq<char>>)
    requires
        forall|i: int| 0 <= i < segs.len() ==> !(#[trigger] segs[i]).contains('/'),
    ensures
        resolve_segments(segs) matches Some(q) ==> forall|i: int|
            0 <= i < q.len() ==> is_plain_segment(#[trigger] q[i]),
    decreases segs.len(),
{
    if segs.len() > 0 {
        assert forall|i: int| 0 <= i < segs.drop_last().len() implies !(
        #[trigger] segs.drop_last()[i]).contains('/') by {
            assert(segs.drop_last()[i] == segs[i]);
        }
        lemma_resolve_plain(segs.drop_last());
        assert(!segs[segs.len() - 1].contains('/'));
    }
}

/// Plain segments resolve to themselves.
proof fn lemma_resolve_plain_fixed(q: Seq<Seq<char>>)
    requires
        forall|i: int| 0 <= i < q.len() ==> is_plain_segment(#[trigger] q[i]),
    ensures
        resolve_segments(q) == Some(q),
    decreases q.len(),
{
    if q.len() > 0 {
        assert forall|i: int| 0 <= i < q.drop_last().len() implies is_plain_segment(
            #[trigger] q.drop_last()[i],
        ) by {
            assert(q.drop_last()[i] == q[i]);
        }
        lemma_resolve_plain_fixed(q.drop_last());
        assert(is_plain_segment(q[q.len() - 1]));
        assert(q.drop_last().push(q.last()) =~= q);
    }
}

/// A resolved path is made of plain segments joined by `/`: it holds no
/// empty, `.`, `..` or `\` segment, so it cannot leave the directory it
/// is served from.
pub proof fn lemma_resolved_path_is_plain(s: Seq<char>)
    ensures
        resolve_path(s) matches Some(p) ==> exists|q: Seq<Seq<char>>|
            (forall|i: int| 0 <= i < q.len() ==> is_plain_segment(#[trigger] q[i])) && p
                == join_with(q, '/'),
{
    lemma_split_pieces(s, '/');
    lemma_resolve_plain(split_on(s, '/'));
    if let Some(q) = resolve_segments(split_on(s, '/')) {
        assert((forall|i: int| 0 <= i < q.len() ==> is_plain_segment(#[trigger] q[i])) && join_with(
            q,
            '/',
        ) == join_with(q, '/'));
    }
}

/// Resolving a resolved path changes nothing.
pub proof fn lemma_resolve_path_idempotent(s: Seq<char>)
    ensures
        resolve_path(s) matches Some(p) ==> resolve_path(p) == Some(p),
{
    lemma_split_pieces(s, '/');
    lemma_resolve_plain(split_on(s, '/'));
    if let Some(q) = resolve_segments(split_on(s, '/')) {
        let p = join_with(q, '/');
        if q.len() == 0 {
            assert(p =~= Seq::<char>::empty());
            let sp = split_on(p, '/');
            assert(sp =~= seq![Seq::<char>::empty()]);
            assert(sp.drop_last() =~= Seq::<Seq<char>>::empty());
            reveal_strlit("\\");
            assert(sp.last() != "\\"@);
            assert(resolve_segments(sp.drop_last()) == Some(Seq::<Seq<char>>::empty()));
            assert(resolve_segments(sp) == Some(Seq::<Seq<char>>::empty()));
            assert(join_with(Seq::<Seq<char>>::empty(), '/') =~= p);
        } else {
            lemma_split_join(q, '/');
            lemma_resolve_plain_fixed(q);
            assert(resolve_path(p) == Some(join_with(q, '/')));
        }
    }
}

// ---------------------------------------------------------------------
// Files served by the theme routes

/// What a file route asks for.
pub enum FileResponse {
    Main,
    Favicon,
    Common(String),
    Theme(String),
    Tsound(String),
}

/// The directory a file route serves from.
#[derive(PartialEq, Eq, Structural, Clone, Copy)]
pub enum FileBase {
    Theme,
    Common,
    Tsound,
}

/// `s.split('/').skip(n)` joined by `/` again: the text after the `n`-th
/// separator.
pub open spec fn after_segments(s: Seq<char>, n: int) -> Seq<char> {
    let parts = split_on(s, '/');
    if parts.len() <= n {
        Seq::empty()
    } else {
        join_with(parts.skip(n), '/')
    }
}

/// The directory and the path under it that a file route serves, or no
/// path when the request's path is rejected. The main page and the icon
/// are fixed names; the other routes drop their first two segments
/// (`/theme/`, `/common/`, `/tsound/`) from the request's full path.
pub open spec fn file_target(t: FileResponse) -> (FileBase, Option<Seq<char>>) {
    match t {
        FileResponse::Main => (FileBase::Theme, resolve_path("main.html"@)),
        FileResponse::Favicon => (FileBase::Theme, resolve_path("favicon.ico"@)),
        FileResponse::Common(p) => (FileBase::Common, resolve_path(after_segments(p@, 2))),
        FileResponse::Theme(p) => (FileBase::Theme, resolve_path(after_segments(p@, 2))),
        FileResponse::Tsound(p) => (FileBase::Tsound, resolve_path(after_segments(p@, 2))),
    }
}

pub(crate) fn split_segments(v: &Vec<char>) -> (r: Vec<Vec<char>>)
    ensures
        segs_view(r@) == split_on(v@, '/'),
{
    let mut segs: Vec<Vec<char>> = Vec::new();
    let mut cur: Vec<char> = Vec::new();
    let mut i: usize = 0;
    assert(v@.take(0) =~= Seq::<char>::empty());
    while i < v.len()
        invariant
            i <= v.len(),
            split_on(v@.take(i as int), '/') == segs_view(segs@).push(cur@),
        decreases v.len() - i,
    {
        let c = v[i];
        let ghost pre = v@.take(i as int);
        let ghost nxt = v@.take(i + 1);
        assert(nxt.drop_last() =~= pre);
        let ghost sp = split_on(pre, '/');
        if c == '/' {
            let seg = cur;
            cur = Vec::new();
            segs.push(seg);
            assert(segs_view(segs@) =~= sp);
            assert(split_on(nxt, '/') =~= segs_view(segs@).push(cur@));
        } else {
            let ghost before = segs_view(segs@);
            cur.push(c);
            assert(split_on(nxt, '/') =~= before.push(cur@));
        }
        i = i + 1;
    }
    assert(v@.take(i as int) =~= v@);
    segs.push(cur);
    assert(segs_view(segs@) =~= split_on(v@, '/'));
    segs
}

fn relative_path(full: &String) -> (r: String)
    ensures
        r@ == after_segments(full@, 2),
{
    let v = str_chars(full.as_str());
    let mut segs = split_segments(&v);
    if segs.len() < 2 {
        let empty: Vec<Vec<char>> = Vec::new();
        assert(segs_view(segs@).len() == segs@.len());
        let r = join_segments(&empty);
        assert(segs_view(empty@) =~= Seq::<Seq<char>>::empty());
        r
    } else {
        let ghost all = segs_view(segs@);
        segs.remove(0);
        segs.remove(0);
        assert(segs_view(segs@) =~= all.skip(2));
        join_segments(&segs)
    }
}

/// The directory and the resolved path that a file route serves.
pub fn file_response_target(t: &FileResponse) -> (r: (FileBase, Option<String>))
    ensures
        r.0 == file_target(*t).0,
        match file_target(*t).1 {
            Some(p) => (r.1 matches Some(x) && x@ == p),
            None => r.1 is None,
        },
{
    match t {
        FileResponse::Main => (FileBase::Theme, check_path("main.html")),
        FileResponse::Favicon => (FileBase::Theme, check_path("favicon.ico")),
        FileResponse::Common(p) => (FileBase::Common, check_path(relative_path(p).as_str())),
        FileResponse::Theme(p) => (FileBase::Theme, check_path(relative_path(p).as_str())),
        FileResponse::Tsound(p) => (FileBase::Tsound, check_path(relative_path(p).as_str())),
    }
}

// ---------------------------------------------------------------------
// Byte ranges

/// One end of a requested byte range.
pub enum RangeBound {
    Unbounded,
    Included(u64),
    Excluded(u64),
}

pub open spec fn range_start(b: RangeBound) -> int {
    match b {
        RangeBound::Unbounded => 0,
        RangeBound::Included(s) => s as int,
        RangeBound::Excluded(s) => s + 1,
    }
}

pub open spec fn range_end(b: RangeBound, len: u64) -> int {
    match b {
        RangeBound::Unbounded => len as int,
        RangeBound::Included(s) => s + 1,
        RangeBound::Excluded(s) => s as int,
    }
}

/// The half-open byte range `[start, end)` that a range request selects
/// in a file of `len` bytes, when it is a non-empty part of the file.
pub fn byte_range(start: &RangeBound, end: &RangeBound, len: u64) -> (r: Option<(u64, u64)>)
    requires
        !(start matches RangeBound::Excluded(s) && s == u64::MAX),
        !(end matches RangeBound::Included(s) && s == u64::MAX),
    ensures
        match r {
            Some((s, e)) => s == range_start(*start) && e == range_end(*end, len) && s < e <= len,
            None => !(range_start(*start) < range_end(*end, len) <= len),
        },
{
    let st: u64 = match start {
        RangeBound::Unbounded => 0,
        RangeBound::Included(s) => *s,
        RangeBound::Excluded(s) => *s + 1,
    };
    let ed: u64 = match end {
        RangeBound::Unbounded => len,
        RangeBound::Included(s) => *s + 1,
        RangeBound::Excluded(s) => *s,
    };
    if st < ed && ed <= len {
        Some((st, ed))
    } else {
        None
    }
}

/// The MIME type `mime_guess` gives a path by its extension
/// (`application/octet-stream` when it knows none); it depends on the
/// path alone.
pub uninterp spec fn guessed_mime(path: Seq<char>) -> Seq<char>;

/// `mime_guess::from_path(path).first_or_octet_stream()`, as text.
#[verifier::external_body]
pub(crate) fn guess_mime(path: &str) -> (r: String)
    ensures
        r@ == guessed_mime(path@),
{
    mime_guess::from_path(path).first_or_octet_stream().to_string()
}

/// How a file is answered.
pub enum FileReply {
    /// `206 Partial Content`: bytes `start..end`, of the given type.
    Partial(u64, u64, String),
    /// `200 OK`: the whole file of `len` bytes, of the given type.
    Whole(u64, String),
    /// `416 Range Not Satisfiable`, for a file of `len` bytes.
    Unsatisfiable(u64),
    /// A `Range` header without any range: not found.
    NotFound,
}

/// The answer for a file of `len` bytes at `path`, by the request's
/// `Range` header: absent (`None`), without ranges (`Some(None)`), or
/// with its first range.
pub fn file_reply(path: &str, len: u64, range: &Option<Option<(RangeBound, RangeBound)>>) -> (r: FileReply)
    requires
        range matches Some(Some((s, e))) ==> !(s matches RangeBound::Excluded(x) && x == u64::MAX)
            && !(e matches RangeBound::Included(x) && x == u64::MAX),
    ensures
        match *range {
            None => (r matches FileReply::Whole(l, m) && l == len && m@ == guessed_mime(path@)),
            Some(None) => r is NotFound,
            Some(Some((s, e))) => if range_start(s) < range_end(e, len) <= len {
                (r matches FileReply::Partial(a, b, m) && a == range_start(s) && b == range_end(e, len)
                    && m@ == guessed_mime(path@))
            } else {
                (r matches FileReply::Unsatisfiable(l) && l == len)
            },
        },
{
    match range {
        None => FileReply::Whole(len, guess_mime(path)),
        Some(None) => FileReply::NotFound,
        Some(Some((s, e))) => match byte_range(s, e, len) {
            Some((a, b)) => FileReply::Partial(a, b, guess_mime(path)),
            None => FileReply::Unsatisfiable(len),
        },
    }
}

// ---------------------------------------------------------------------
// Command routes

/// The parameters of the `/cmd` route.
pub struct CmdParam {
    pub cmd: String,
    pub arg1: Option<String>,
    pub arg2: Option<String>,
    pub arg3: Option<String>,
}

pub open spec fn opt_text(a: Option<String>) -> Option<Seq<char>> {
    match a {
        Some(x) => Some(x@),
        None => None,
    }
}

/// An argument as appended to a plain command: a space and the quoted
/// argument, or nothing when it is absent or blank.
pub open spec fn arg_text(a: Option<Seq<char>>) -> Seq<char> {
    match a {
        Some(x) => if trim(x).len() > 0 {
            " "@ + quoted(x)
        } else {
            Seq::empty()
        },
        None => Seq::empty(),
    }
}

/// The request that the `/cmd` route sends: the command word is trimmed
/// at its end and lowercased; `setvol`, `setmute`, `addurl`, `addauxin`
/// and `testsound` are the daemon's own requests (without their first
/// argument they do nothing); any other word is sent to MPD with its
/// arguments quoted.
pub open spec fn cmd_request(cmd: Seq<char>, a1: Option<Seq<char>>, a2: Option<Seq<char>>, a3: Option<
    Seq<char>,
>) -> RequestSpec {
    let c = lowercase(trim_end(cmd));
    if c == "setvol"@ {
        match a1 {
            Some(a) => RequestSpec::SetVol(a),
            None => RequestSpec::Nop,
        }
    } else if c == "setmute"@ {
        match a1 {
            Some(a) => RequestSpec::SetMute(a),
            None => RequestSpec::Nop,
        }
    } else if c == "addurl"@ {
        match a1 {
            Some(u) => RequestSpec::AddUrl(
                u,
                match a2 {
                    Some(x) => x,
                    None => Seq::empty(),
                },
            ),
            None => RequestSpec::Nop,
        }
    } else if c == "addauxin"@ {
        match a1 {
            Some(n) => RequestSpec::AddAuxIn(n),
            None => RequestSpec::Nop,
        }
    } else if c == "testsound"@ {
        RequestSpec::TestSound
    } else if c.len() == 0 {
        RequestSpec::Nop
    } else {
        RequestSpec::Cmd(c + arg_text(a1) + arg_text(a2) + arg_text(a3))
    }
}

fn append_arg(cmd: &mut String, a: &Option<String>)
    ensures
        final(cmd)@ == old(cmd)@ + arg_text(opt_text(*a)),
{
    match a {
        Some(x) => {
            let t = crate::text::trim_string(x.as_str());
            if t.as_str().unicode_len() > 0 {
                cmd.append(" ");
                let q = quote_arg(x.as_str());
                cmd.append(q.as_str());
                assert(final(cmd)@ =~= old(cmd)@ + (" "@ + quoted(x@)));
            } else {
                assert(old(cmd)@ + Seq::<char>::empty() =~= old(cmd)@);
            }
        },
        None => {
            assert(old(cmd)@ + Seq::<char>::empty() =~= old(cmd)@);
        },
    }
}

impl CmdParam {
    /// The request for MPD's task.
    pub fn to_request(&self) -> (r: MpdComRequestType)
        ensures
            r.spec() == cmd_request(
                self.cmd@,
                opt_text(self.arg1),
                opt_text(self.arg2),
                opt_text(self.arg3),
            ),
    {
        let t = trim_end_string(self.cmd.as_str());
        let mut cmd = to_lowercase(t.as_str());
        if cmd == String::from_str("setvol") {
            match &self.arg1 {
                Some(a) => MpdComRequestType::SetVol(a.clone()),
                None => MpdComRequestType::Nop,
            }
        } else if cmd == String::from_str("setmute") {
            match &self.arg1 {
                Some(a) => MpdComRequestType::SetMute(a.clone()),
                None => MpdComRequestType::Nop,
            }
        } else if cmd == String::from_str("addurl") {
            match &self.arg1 {
                Some(u) => {
                    let arg = match &self.arg2 {
                        Some(x) => x.clone(),
                        None => String::new(),
                    };
                    MpdComRequestType::AddUrl((u.clone(), arg))
                },
                None => MpdComRequestType::Nop,
            }
        } else if cmd == String::from_str("addauxin") {
            match &self.arg1 {
                Some(n) => MpdComRequestType::AddAuxIn(n.clone()),
                None => MpdComRequestType::Nop,
            }
        } else if cmd == String::from_str("testsound") {
            MpdComRequestType::TestSound
        } else if cmd.as_str().unicode_len() == 0 {
            MpdComRequestType::Nop
        } else {
            append_arg(&mut cmd, &self.arg1);
            append_arg(&mut cmd, &self.arg2);
            append_arg(&mut cmd, &self.arg3);
            MpdComRequestType::Cmd(cmd)
        }
    }
}

/// The parameters of the `/bt_cmd` route.
pub struct BtCmdParam {
    pub cmd: String,
    pub aid: String,
    pub did: String,
    pub sw: bool,
    pub arg: Option<String>,
}

impl BtCmdParam {
    /// The request for the Bluetooth task: the command word trimmed at
    /// its end and lowercased, the rest as given.
    pub fn to_request(&self) -> (r: BtctrlRequestType)
        ensures
            (r matches BtctrlRequestType::Cmd(c, a, d, s, x) && c@ == lowercase(trim_end(self.cmd@))
                && a@ == self.aid@ && d@ == self.did@ && s == self.sw && opt_text(x) == opt_text(
                self.arg,
            )),
    {
        let t = trim_end_string(self.cmd.as_str());
        let cmd = to_lowercase(t.as_str());
        let arg = match &self.arg {
            Some(x) => Some(x.clone()),
            None => None,
        };
        BtctrlRequestType::Cmd(cmd, self.aid.clone(), self.did.clone(), self.sw, arg)
    }
}

/// The parameters of the `/bt_reply` route.
pub struct BtReplyParam {
    pub reply_token: String,
    pub ok: bool,
}

impl BtReplyParam {
    /// The user's reply, for the pairing agent.
    pub fn to_request(&self) -> (r: BtctrlRepryType)
        ensures
            (r matches BtctrlRepryType::Reply(t, ok) && t@ == self.reply_token@ && ok == self.ok),
    {
        BtctrlRepryType::Reply(self.reply_token.clone(), self.ok)
    }
}

} // verus!
