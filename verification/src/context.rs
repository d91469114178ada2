//! The daemon's configuration: the fixed settings, the settings the web
//! interface changes (theme, spectrum delay, stream URLs and AUX
//! inputs) and the rules by which such changes are checked and
//! normalised, the places files are served from, and the URLs the
//! daemon hands to MPD.

use vstd::prelude::*;
use crate::text::{
    is_white_space, white_space, trim, trim_start, trim_end, str_chars, sub_string, trim_string,
    trim_range, trim_start_index, lemma_trim_start_idempotent, lemma_trim_end_idempotent,
    has_prefix,
};
use crate::bt::{choose_multiple, drawn_without_repetition, all_distinct, lemma_drawn_distinct};
use crate::sorting::{Keyed, sort_by_key, sorted_by_key, key_is};
use url::ParseError as UrlError;

verus! {

pub const CONTENTS_DIR: &'static str = "_contents";

pub const THEME_DIR: &'static str = "theme";

pub const THEME_MAIN: &'static str = "main.html";

pub const THEME_FAVICON_ICO: &'static str = "favicon.ico";

pub const THEME_DEFAULT_DIR: &'static str = "_default";

pub const THEME_COMMON_DIR: &'static str = "_common";

pub const TESTSOUND_DIR: &'static str = "tsource";

pub const TESTSOUND_URL_PATH: &'static str = "tsource";

/// The settings read at start.
pub struct Config {
    pub config_dyn: String,
    pub bind_addr: String,
    pub mpd_addr: String,
    pub mpd_httpd_url: String,
    pub self_url_for_mpd: String,
    pub mpd_protolog: bool,
    pub mpd_fifo: String,
    pub mpd_fifo_fftmode: u32,
    pub contents_dir: String,
    pub albumart_upnp: bool,
    pub albumart_localdir: String,
}

/// The settings changed from the web interface and saved on exit.
pub struct ConfigDyn {
    pub theme: String,
    pub spec_delay: u32,
    pub url_list: Vec<String>,
    pub aux_in: Vec<String>,
}

impl ConfigDyn {
    /// The settings used when none were saved.
    pub fn new() -> (r: ConfigDyn)
        ensures
            r.theme@ == THEME_DEFAULT_DIR@,
            r.spec_delay == 50,
            r.url_list@.len() == 0,
            r.aux_in@.len() == 0,
    {
        ConfigDyn {
            theme: String::from_str(THEME_DEFAULT_DIR),
            spec_delay: 50,
            url_list: Vec::new(),
            aux_in: Vec::new(),
        }
    }
}

/// The settings as shown to the web interface, with the themes to
/// choose from.
pub struct ConfigDynOutput {
    pub theme: String,
    pub themes: Vec<String>,
    pub spec_delay: u32,
    pub url_list: Vec<String>,
    pub aux_in: Vec<String>,
}

/// Why a change of the settings was refused.
pub struct ConfigDynOutputError {
    pub err_msg: String,
}

/// A change of the settings: each field that is present replaces the
/// current one.
pub struct ConfigDynInput {
    pub theme: Option<String>,
    pub spec_delay: Option<u32>,
    pub url_list: Option<Vec<String>>,
    pub aux_in: Option<Vec<String>>,
}

pub open spec fn texts(s: Seq<String>) -> Seq<Seq<char>> {
    s.map_values(|x: String| x@)
}

fn copy_texts(v: &Vec<String>) -> (r: Vec<String>)
    ensures
        texts(r@) == texts(v@),
{
    let mut r: Vec<String> = Vec::new();
    let mut i: usize = 0;
    while i < v.len()
        invariant
            i <= v@.len(),
            texts(r@) == texts(v@.take(i as int)),
        decreases v.len() - i,
    {
        r.push(v[i].clone());
        assert(texts(v@.take(i + 1)) =~= texts(v@.take(i as int)).push(v@[i as int]@));
        i = i + 1;
    }
    assert(v@.take(i as int) =~= v@);
    r
}

// ---------------------------------------------------------------------
// Where files are served from

/// The directory of the contents, as path components.
pub open spec fn contents_path(c: Config) -> Seq<Seq<char>> {
    if c.contents_dir@.len() > 0 {
        seq![c.contents_dir@]
    } else {
        seq![CONTENTS_DIR@]
    }
}

impl Config {
    /// The contents directory: the configured one, or `_contents`.
    pub fn get_contents_path(&self) -> (r: Vec<String>)
        ensures
            texts(r@) == contents_path(*self),
    {
        let mut r: Vec<String> = Vec::new();
        if self.contents_dir.as_str().unicode_len() > 0 {
            r.push(self.contents_dir.clone());
        } else {
            r.push(String::from_str(CONTENTS_DIR));
        }
        assert(texts(r@) =~= contents_path(*self));
        r
    }

    /// The directory of the chosen theme (the theme directory itself when
    /// no theme is chosen).
    pub fn get_theme_path(&self, cd: &ConfigDyn) -> (r: Vec<String>)
        ensures
            texts(r@) == (if cd.theme@.len() > 0 {
                contents_path(*self).push(THEME_DIR@).push(cd.theme@)
            } else {
                contents_path(*self).push(THEME_DIR@)
            }),
    {
        let mut r = self.get_contents_path();
        let ghost base = texts(r@);
        r.push(String::from_str(THEME_DIR));
        assert(texts(r@) =~= base.push(THEME_DIR@));
        if cd.theme.as_str().unicode_len() > 0 {
            let ghost b2 = texts(r@);
            r.push(cd.theme.clone());
            assert(texts(r@) =~= b2.push(cd.theme@));
        }
        r
    }

    /// The directory of the files common to all themes.
    pub fn get_common_path(&self) -> (r: Vec<String>)
        ensures
            texts(r@) == contents_path(*self).push(THEME_DIR@).push(THEME_COMMON_DIR@),
    {
        let mut r = self.get_contents_path();
        let ghost base = texts(r@);
        r.push(String::from_str(THEME_DIR));
        r.push(String::from_str(THEME_COMMON_DIR));
        assert(texts(r@) =~= base.push(THEME_DIR@).push(THEME_COMMON_DIR@));
        r
    }

    /// The directory of the test sounds.
    pub fn get_tsound_path(&self) -> (r: Vec<String>)
        ensures
            texts(r@) == contents_path(*self).push(TESTSOUND_DIR@),
    {
        let mut r = self.get_contents_path();
        let ghost base = texts(r@);
        r.push(String::from_str(TESTSOUND_DIR));
        assert(texts(r@) =~= base.push(TESTSOUND_DIR@));
        r
    }
}

/// Theme directories whose names start with `_` or `.` are not offered.
pub open spec fn theme_hidden(name: Seq<char>) -> bool {
    name.len() > 0 && (name[0] == '_' || name[0] == '.')
}

/// The themes offered: `_default` first, then each directory entry (with
/// whether it holds a `main.html` file) that is not hidden and has one.
pub open spec fn offered_themes(entries: Seq<(Seq<char>, bool)>) -> Seq<Seq<char>>
    decreases entries.len(),
{
    if entries.len() == 0 {
        seq![THEME_DEFAULT_DIR@]
    } else {
        let r = offered_themes(entries.drop_last());
        let (n, has_main) = entries.last();
        if !theme_hidden(n) && has_main {
            r.push(n)
        } else {
            r
        }
    }
}

pub open spec fn entries_view(e: Seq<(String, bool)>) -> Seq<(Seq<char>, bool)> {
    e.map_values(|x: (String, bool)| (x.0@, x.1))
}

/// The settings as shown, with the themes found among the entries of
/// the theme directory.
pub fn make_config_dyn_output(cd: &ConfigDyn, entries: &Vec<(String, bool)>) -> (r: ConfigDynOutput)
    ensures
        r.theme@ == cd.theme@,
        texts(r.themes@) == offered_themes(entries_view(entries@)),
        r.spec_delay == cd.spec_delay,
        texts(r.url_list@) == texts(cd.url_list@),
        texts(r.aux_in@) == texts(cd.aux_in@),
{
    let mut themes: Vec<String> = Vec::new();
    themes.push(String::from_str(THEME_DEFAULT_DIR));
    let mut i: usize = 0;
    assert(entries_view(entries@).take(0) =~= Seq::<(Seq<char>, bool)>::empty());
    assert(texts(themes@) =~= offered_themes(entries_view(entries@).take(0)));
    while i < entries.len()
        invariant
            i <= entries@.len(),
            texts(themes@) == offered_themes(entries_view(entries@).take(i as int)),
        decreases entries.len() - i,
    {
        let name = &entries[i].0;
        let has_main = entries[i].1;
        let ghost before = texts(themes@);
        let ghost pre = entries_view(entries@).take(i + 1);
        assert(pre.drop_last() =~= entries_view(entries@).take(i as int));
        assert(pre.last() == (name@, has_main));
        let v = str_chars(name.as_str());
        let hidden = v.len() > 0 && (v[0] == '_' || v[0] == '.');
        if !hidden && has_main {
            themes.push(name.clone());
            assert(texts(themes@) =~= before.push(name@));
        }
        i = i + 1;
    }
    assert(entries_view(entries@).take(i as int) =~= entries_view(entries@));
    ConfigDynOutput {
        theme: cd.theme.clone(),
        themes,
        spec_delay: cd.spec_delay,
        url_list: copy_texts(&cd.url_list),
        aux_in: copy_texts(&cd.aux_in),
    }
}

// ---------------------------------------------------------------------
// URLs with a name: `[name] url`

/// Where `t` (which starts with `[`) closes its name: the first `]`,
/// when it encloses at least one character.
pub open spec fn name_close(t: Seq<char>, j: int) -> bool {
    &&& 2 <= j < t.len()
    &&& t[j] == ']'
    &&& forall|k: int| 1 <= k < j ==> t[k] != ']'
}

/// `(url, name)` of an entry written `[name] url` (white space around
/// allowed), or `(url, "")` for an entry without a name; both trimmed.
pub open spec fn split_name(s: Seq<char>) -> (Seq<char>, Seq<char>) {
    let t = trim_start(s);
    if t.len() > 0 && t[0] == '[' && exists|j: int| name_close(t, j) {
        let j = choose|j: int| name_close(t, j);
        (trim(t.skip(j + 1)), trim(t.subrange(1, j)))
    } else {
        (trim(s), Seq::empty())
    }
}

/// An entry written back: `[name] url`, or the bare URL when there is
/// no name.
pub open spec fn join_name(url: Seq<char>, name: Seq<char>) -> Seq<char> {
    if name.len() == 0 {
        trim(url)
    } else {
        seq!['['] + trim(name) + "] "@ + trim(url)
    }
}

proof fn lemma_name_close_unique(t: Seq<char>, j: int, k: int)
    requires
        name_close(t, j),
        name_close(t, k),
    ensures
        j == k,
{
    if j < k {
        assert(t[j] != ']');
    } else if k < j {
        assert(t[k] != ']');
    }
}

proof fn lemma_trim_start_suffix(s: Seq<char>)
    ensures
        trim_start(s).len() <= s.len(),
        trim_start(s) == s.skip(s.len() - trim_start(s).len()),
    decreases s.len(),
{
    if s.len() > 0 && is_white_space(s[0]) {
        lemma_trim_start_suffix(s.drop_first());
        assert(s.drop_first().skip(s.len() - 1 - trim_start(s).len()) =~= s.skip(
            s.len() - trim_start(s).len(),
        ));
    } else {
        assert(s.skip(0) =~= s);
    }
}

proof fn lemma_trim_end_prefix(s: Seq<char>)
    ensures
        trim_end(s).len() <= s.len(),
        trim_end(s) == s.take(trim_end(s).len() as int),
    decreases s.len(),
{
    if s.len() > 0 && is_white_space(s.last()) {
        lemma_trim_end_prefix(s.drop_last());
        assert(s.drop_last().take(trim_end(s).len() as int) =~= s.take(
            trim_end(s).len() as int,
        ));
    } else {
        assert(s.take(s.len() as int) =~= s);
    }
}

/// Every character of `trim(s)` is one of `s`.
proof fn lemma_trim_chars(s: Seq<char>, c: char)
    requires
        !s.contains(c),
    ensures
        !trim(s).contains(c),
{
    let u = trim_start(s);
    lemma_trim_start_suffix(s);
    lemma_trim_end_prefix(u);
    if trim(s).contains(c) {
        let i = choose|i: int| 0 <= i < trim(s).len() && trim(s)[i] == c;
        assert(trim(s)[i] == u[i]);
        assert(u[i] == s[s.len() - u.len() + i]);
    }
}

/// Reading back an entry written with a name gives the URL and the name,
/// trimmed, when the name is not blank and holds no `]`.
pub proof fn lemma_split_join_name(url: Seq<char>, name: Seq<char>)
    requires
        trim(name).len() > 0,
        !name.contains(']'),
    ensures
        split_name(join_name(url, name)) == (trim(url), trim(name)),
{
    let n = trim(name);
    let u = trim(url);
    lemma_trim_chars(name, ']');
    let s = join_name(url, name);
    assert(s == seq!['['] + n + "] "@ + u);
    reveal_strlit("] ");
    assert(!is_white_space(s[0]));
    assert(trim_start(s) == s);
    let j0: int = n.len() as int + 1;
    assert forall|k: int| 1 <= k < j0 implies s[k] != ']' by {
        assert(s[k] == n[k - 1]);
    }
    assert(s[j0] == ']');
    assert(name_close(s, j0));
    let j = choose|j: int| name_close(s, j);
    lemma_name_close_unique(s, j, j0);
    assert(s.subrange(1, j0) =~= n);
    lemma_trim_of_trim(name);
    let rest = s.skip(j0 + 1);
    assert(rest =~= seq![' '] + u);
    assert(rest.drop_first() =~= u);
    assert(trim_start(rest) == trim_start(u));
    lemma_trim_of_trim(url);
}

/// Splits an entry into its URL and its name.
pub fn split_url_with_name(url_with_name: &str) -> (r: (String, String))
    ensures
        (r.0@, r.1@) == split_name(url_with_name@),
{
    let v = str_chars(url_with_name);
    let n = v.len();
    let i = trim_start_index(&v, 0, n);
    assert(v@.subrange(0, n as int) =~= v@);
    let ghost t = trim_start(v@);
    assert(t == v@.subrange(i as int, n as int));
    if i < n && v[i] == '[' {
        let mut j: usize = i + 1;
        while j < n && v[j] != ']'
            invariant
                i < j <= n,
                n == v@.len(),
                forall|k: int| i < k < j ==> v@[k] != ']',
            decreases n - j,
        {
            j = j + 1;
        }
        if j < n && j >= i + 2 {
            proof {
                assert(name_close(t, j - i));
                let c = choose|c: int| name_close(t, c);
                lemma_name_close_unique(t, j - i, c);
                assert(t.skip(j - i + 1) =~= v@.subrange(j + 1, n as int));
                assert(t.subrange(1, j - i) =~= v@.subrange(i + 1, j as int));
            }
            let (a, b) = trim_range(&v, j + 1, n);
            let (c, d) = trim_range(&v, i + 1, j);
            return (sub_string(&v, a, b), sub_string(&v, c, d));
        }
        proof {
            assert forall|c: int| !name_close(t, c) by {
                if name_close(t, c) {
                    if c + i < j {
                        assert(t[c] == v@[c + i]);
                    } else if c + i == j {
                    } else {
                        assert(t[j - i] == v@[j as int]);
                    }
                }
            }
        }
    }
    let (a, b) = trim_range(&v, 0, n);
    (sub_string(&v, a, b), String::new())
}

/// Writes an entry back from its URL and name.
pub fn concat_url_with_name(url: &str, name: &str) -> (r: String)
    ensures
        r@ == join_name(url@, name@),
{
    if name.unicode_len() == 0 {
        trim_string(url)
    } else {
        let mut s = String::from_str("[");
        let n = trim_string(name);
        s.append(n.as_str());
        s.append("] ");
        let u = trim_string(url);
        s.append(u.as_str());
        proof {
            reveal_strlit("[");
        }
        s
    }
}

// ---------------------------------------------------------------------
// Lists without repetition

/// The entries trimmed, without empty ones, each kept only where it
/// first occurs.
pub open spec fn uniq_list(s: Seq<Seq<char>>) -> Seq<Seq<char>>
    decreases s.len(),
{
    if s.len() == 0 {
        Seq::empty()
    } else {
        let r = uniq_list(s.drop_last());
        let t = trim(s.last());
        if t.len() == 0 || r.contains(t) {
            r
        } else {
            r.push(t)
        }
    }
}

fn contains_text(v: &Vec<String>, t: &String) -> (r: bool)
    ensures
        r == texts(v@).contains(t@),
{
    let mut i: usize = 0;
    while i < v.len()
        invariant
            i <= v@.len(),
            forall|k: int| 0 <= k < i ==> v@[k]@ != t@,
        decreases v.len() - i,
    {
        if v[i] == *t {
            assert(texts(v@)[i as int] == t@);
            return true;
        }
        i = i + 1;
    }
    assert forall|k: int| 0 <= k < texts(v@).len() implies texts(v@)[k] != t@ by {
        assert(texts(v@)[k] == v@[k]@);
    }
    false
}

/// The list trimmed, without empty or repeated entries, in the order of
/// first occurrence.
pub fn make_uniq_list(list: &Vec<String>) -> (r: Vec<String>)
    ensures
        texts(r@) == uniq_list(texts(list@)),
{
    let mut r: Vec<String> = Vec::new();
    let mut i: usize = 0;
    assert(texts(list@).take(0) =~= Seq::<Seq<char>>::empty());
    while i < list.len()
        invariant
            i <= list@.len(),
            texts(r@) == uniq_list(texts(list@).take(i as int)),
        decreases list.len() - i,
    {
        let ghost pre = texts(list@).take(i + 1);
        assert(pre.drop_last() =~= texts(list@).take(i as int));
        assert(pre.last() == list@[i as int]@);
        let t = trim_string(list[i].as_str());
        if t.as_str().unicode_len() > 0 && !contains_text(&r, &t) {
            let ghost before = texts(r@);
            r.push(t);
            assert(texts(r@) =~= before.push(trim(list@[i as int]@)));
        }
        i = i + 1;
    }
    assert(texts(list@).take(i as int) =~= texts(list@));
    r
}

/// Each entry of a normalised list is trimmed and not empty, and no entry
/// occurs twice.
pub proof fn lemma_uniq_list_clean(s: Seq<Seq<char>>)
    ensures
        forall|i: int| 0 <= i < uniq_list(s).len() ==> {
            let e = #[trigger] uniq_list(s)[i];
            e.len() > 0 && trim(e) == e
        },
        forall|i: int, j: int| 0 <= i < j < uniq_list(s).len() ==> uniq_list(s)[i] != uniq_list(s)[j],
    decreases s.len(),
{
    if s.len() > 0 {
        lemma_uniq_list_clean(s.drop_last());
        let r = uniq_list(s.drop_last());
        let t = trim(s.last());
        lemma_trim_of_trim(s.last());
        if !(t.len() == 0 || r.contains(t)) {
            let u = r.push(t);
            assert(uniq_list(s) == u);
            assert forall|i: int| 0 <= i < u.len() implies {
                let e = #[trigger] u[i];
                e.len() > 0 && trim(e) == e
            } by {
                if i < r.len() {
                    assert(u[i] == r[i]);
                }
            }
            assert forall|i: int, j: int| 0 <= i < j < u.len() implies u[i] != u[j] by {
                if j == r.len() {
                    assert(u[i] == r[i]);
                    assert(!r.contains(t));
                    if u[i] == u[j] {
                        assert(r[i] == t);
                    }
                } else {
                    assert(u[i] == r[i]);
                    assert(u[j] == r[j]);
                }
            }
        }
    }
}

proof fn lemma_trim_of_trim(s: Seq<char>)
    ensures
        trim(trim(s)) == trim(s),
{
    let u = trim_start(s);
    lemma_trim_start_idempotent(s);
    lemma_trim_start_of_trim_end(u);
    lemma_trim_end_idempotent(u);
}

proof fn lemma_trim_start_len(s: Seq<char>)
    ensures
        trim_start(s).len() <= s.len(),
    decreases s.len(),
{
    if s.len() > 0 && is_white_space(s[0]) {
        lemma_trim_start_len(s.drop_first());
    }
}

proof fn lemma_trim_start_of_trim_end(s: Seq<char>)
    requires
        trim_start(s) == s,
    ensures
        trim_start(trim_end(s)) == trim_end(s),
    decreases s.len(),
{
    if s.len() > 0 && is_white_space(s.last()) {
        if is_white_space(s[0]) {
            lemma_trim_start_len(s.drop_first());
            assert(trim_start(s).len() < s.len());
        }
        if s.len() > 1 {
            assert(s.drop_last()[0] == s[0]);
            assert(trim_start(s.drop_last()) == s.drop_last());
            lemma_trim_start_of_trim_end(s.drop_last());
        }
    }
}

/// Normalising a normalised list changes nothing.
pub proof fn lemma_uniq_list_idempotent(s: Seq<Seq<char>>)
    ensures
        uniq_list(uniq_list(s)) == uniq_list(s),
{
    lemma_uniq_list_clean(s);
    lemma_uniq_fixed(uniq_list(s));
}

proof fn lemma_uniq_fixed(u: Seq<Seq<char>>)
    requires
        forall|i: int| 0 <= i < u.len() ==> {
            let e = #[trigger] u[i];
            e.len() > 0 && trim(e) == e
        },
        forall|i: int, j: int| 0 <= i < j < u.len() ==> u[i] != u[j],
    ensures
        uniq_list(u) == u,
    decreases u.len(),
{
    if u.len() > 0 {
        let p = u.drop_last();
        assert forall|i: int| 0 <= i < p.len() implies {
            let e = #[trigger] p[i];
            e.len() > 0 && trim(e) == e
        } by {
            assert(p[i] == u[i]);
        }
        lemma_uniq_fixed(p);
        let t = trim(u.last());
        assert(u[u.len() - 1] == u.last());
        assert(!p.contains(t)) by {
            if p.contains(t) {
                let k = choose|k: int| 0 <= k < p.len() && p[k] == t;
                assert(u[k] == p[k]);
            }
        }
        assert(p.push(t) =~= u);
    }
}

// ---------------------------------------------------------------------
// Checking URLs

/// Why `Url::parse` refused a text (`Other` for kinds added later).
#[derive(PartialEq, Eq, Structural, Clone, Copy, Debug)]
pub enum UrlParseError {
    EmptyHost,
    IdnaError,
    InvalidPort,
    InvalidIpv4Address,
    InvalidIpv6Address,
    InvalidDomainCharacter,
    RelativeUrlWithoutBase,
    RelativeUrlWithCannotBeABaseBase,
    SetHostOnCannotBeABaseUrl,
    Overflow,
    Other,
}

/// The name the error is printed with (`{:?}`).
pub open spec fn parse_error_name(e: UrlParseError) -> Seq<char> {
    match e {
        UrlParseError::EmptyHost => "EmptyHost"@,
        UrlParseError::IdnaError => "IdnaError"@,
        UrlParseError::InvalidPort => "InvalidPort"@,
        UrlParseError::InvalidIpv4Address => "InvalidIpv4Address"@,
        UrlParseError::InvalidIpv6Address => "InvalidIpv6Address"@,
        UrlParseError::InvalidDomainCharacter => "InvalidDomainCharacter"@,
        UrlParseError::RelativeUrlWithoutBase => "RelativeUrlWithoutBase"@,
        UrlParseError::RelativeUrlWithCannotBeABaseBase => "RelativeUrlWithCannotBeABaseBase"@,
        UrlParseError::SetHostOnCannotBeABaseUrl => "SetHostOnCannotBeABaseUrl"@,
        UrlParseError::Overflow => "Overflow"@,
        UrlParseError::Other => "Other"@,
    }
}

impl UrlParseError {
    pub fn name(&self) -> (r: String)
        ensures
            r@ == parse_error_name(*self),
    {
        match self {
            UrlParseError::EmptyHost => String::from_str("EmptyHost"),
            UrlParseError::IdnaError => String::from_str("IdnaError"),
            UrlParseError::InvalidPort => String::from_str("InvalidPort"),
            UrlParseError::InvalidIpv4Address => String::from_str("InvalidIpv4Address"),
            UrlParseError::InvalidIpv6Address => String::from_str("InvalidIpv6Address"),
            UrlParseError::InvalidDomainCharacter => String::from_str("InvalidDomainCharacter"),
            UrlParseError::RelativeUrlWithoutBase => String::from_str("RelativeUrlWithoutBase"),
            UrlParseError::RelativeUrlWithCannotBeABaseBase => String::from_str(
                "RelativeUrlWithCannotBeABaseBase",
            ),
            UrlParseError::SetHostOnCannotBeABaseUrl => String::from_str(
                "SetHostOnCannotBeABaseUrl",
            ),
            UrlParseError::Overflow => String::from_str("Overflow"),
            UrlParseError::Other => String::from_str("Other"),
        }
    }
}

#[verifier::external_type_specification]
#[verifier::external_body]
pub struct ExUrl(url::Url);

/// Why `Url::parse` refuses a text, or `None` when it parses it: this
/// depends on the text alone.
pub uninterp spec fn url_parse_error(s: Seq<char>) -> Option<UrlParseError>;

/// `Url::parse(s)`. Its contract: the parse succeeds, or fails with a
/// given kind of error, as `url_parse_error` of the text says. Nothing
/// is stated of the parsed URL itself.
#[verifier::external_body]
pub(crate) fn url_parse(s: &str) -> (r: Result<url::Url, UrlParseError>)
    ensures
        match r {
            Ok(_) => url_parse_error(s@) is None,
            Err(e) => url_parse_error(s@) == Some(e),
        },
{
    url::Url::parse(s).map_err(|e| match e {
        UrlError::EmptyHost => UrlParseError::EmptyHost,
        UrlError::IdnaError => UrlParseError::IdnaError,
        UrlError::InvalidPort => UrlParseError::InvalidPort,
        UrlError::InvalidIpv4Address => UrlParseError::InvalidIpv4Address,
        UrlError::InvalidIpv6Address => UrlParseError::InvalidIpv6Address,
        UrlError::InvalidDomainCharacter => UrlParseError::InvalidDomainCharacter,
        UrlError::RelativeUrlWithoutBase => UrlParseError::RelativeUrlWithoutBase,
        UrlError::RelativeUrlWithCannotBeABaseBase => UrlParseError::RelativeUrlWithCannotBeABaseBase,
        UrlError::SetHostOnCannotBeABaseUrl => UrlParseError::SetHostOnCannotBeABaseUrl,
        UrlError::Overflow => UrlParseError::Overflow,
        _ => UrlParseError::Other,
    })
}

/// Sources and sinks of the daemon's own (`asource://`, `tsource://`,
/// `alsa://`, `mpdsink://`, `asink://`) are not checked as URLs.
pub open spec fn ignored_scheme(u: Seq<char>) -> bool {
    ||| starts_with(u, "asource://"@)
    ||| starts_with(u, "tsource://"@)
    ||| starts_with(u, "alsa://"@)
    ||| starts_with(u, "mpdsink://"@)
    ||| starts_with(u, "asink://"@)
}

/// `u` begins with `p`.
pub open spec fn starts_with(u: Seq<char>, p: Seq<char>) -> bool {
    p.len() <= u.len() && u.take(p.len() as int) == p
}

pub open spec fn check_url_spec(u: Seq<char>) -> Result<(), UrlParseError> {
    if ignored_scheme(u) {
        Ok(())
    } else {
        match url_parse_error(u) {
            Some(e) => Err(e),
            None => Ok(()),
        }
    }
}

/// Whether an entry's URL is acceptable.
pub fn check_url(url: &str) -> (r: Result<(), UrlParseError>)
    ensures
        r == check_url_spec(url@),
{
    if has_prefix(url, "asource://") || has_prefix(url, "tsource://") || has_prefix(url, "alsa://")
        || has_prefix(url, "mpdsink://") || has_prefix(url, "asink://") {
        return Ok(());
    }
    assert(!ignored_scheme(url@));
    match url_parse(url) {
        Ok(_) => Ok(()),
        Err(e) => Err(e),
    }
}

/// The message of a refused URL.
pub open spec fn url_error_text(u: Seq<char>, e: UrlParseError) -> Seq<char> {
    "URL ParseError "@ + parse_error_name(e) + " ["@ + u + "]"@
}

/// The first entry (skipping blank ones) whose URL is refused, with the
/// reason.
pub open spec fn first_url_error(s: Seq<Seq<char>>) -> Option<Seq<char>>
    decreases s.len(),
{
    if s.len() == 0 {
        None
    } else {
        let t = trim(s[0]);
        if t.len() > 0 {
            let u = split_name(t).0;
            match check_url_spec(u) {
                Err(e) => Some(url_error_text(u, e)),
                Ok(_) => first_url_error(s.drop_first()),
            }
        } else {
            first_url_error(s.drop_first())
        }
    }
}

/// Checks the URLs of a list of entries: the first refused one makes the
/// error.
pub fn check_urls(list: &Vec<String>) -> (r: Option<ConfigDynOutputError>)
    ensures
        match first_url_error(texts(list@)) {
            Some(m) => (r matches Some(e) && e.err_msg@ == m),
            None => r is None,
        },
{
    let mut i: usize = 0;
    assert(texts(list@).skip(0) =~= texts(list@));
    while i < list.len()
        invariant
            i <= list@.len(),
            first_url_error(texts(list@)) == first_url_error(texts(list@).skip(i as int)),
        decreases list.len() - i,
    {
        let ghost rest = texts(list@).skip(i as int);
        assert(rest[0] == list@[i as int]@);
        assert(rest.drop_first() =~= texts(list@).skip(i + 1));
        let t = trim_string(list[i].as_str());
        if t.as_str().unicode_len() > 0 {
            let (u, _n) = split_url_with_name(t.as_str());
            match check_url(u.as_str()) {
                Err(e) => {
                    let mut m = String::from_str("URL ParseError ");
                    let name = e.name();
                    m.append(name.as_str());
                    m.append(" [");
                    m.append(u.as_str());
                    m.append("]");
                    return Some(ConfigDynOutputError { err_msg: m });
                },
                Ok(_) => {},
            }
        }
        i = i + 1;
    }
    assert(texts(list@).skip(i as int) =~= Seq::<Seq<char>>::empty());
    None
}

/// An entry in its written-back form.
pub open spec fn normalized_entry(s: Seq<char>) -> Seq<char> {
    join_name(split_name(s).0, split_name(s).1)
}

/// A list of entries as stored: each entry written back, then trimmed of
/// blanks and repetitions.
pub open spec fn normalized_list(s: Seq<Seq<char>>) -> Seq<Seq<char>> {
    uniq_list(normalized_entries(s))
}

pub open spec fn normalized_entries(s: Seq<Seq<char>>) -> Seq<Seq<char>> {
    s.map_values(|x: Seq<char>| normalized_entry(x))
}

fn normalize_list(list: &Vec<String>) -> (r: Vec<String>)
    ensures
        texts(r@) == normalized_list(texts(list@)),
{
    let mut n: Vec<String> = Vec::new();
    let mut i: usize = 0;
    while i < list.len()
        invariant
            i <= list@.len(),
            texts(n@) == normalized_entries(texts(list@).take(i as int)),
        decreases list.len() - i,
    {
        let (u, nm) = split_url_with_name(list[i].as_str());
        let e = concat_url_with_name(u.as_str(), nm.as_str());
        let ghost before = texts(n@);
        n.push(e);
        assert(texts(list@).take(i + 1) =~= texts(list@).take(i as int).push(list@[i as int]@));
        assert(normalized_entries(texts(list@).take(i + 1)) =~= before.push(e@));
        assert(texts(n@) =~= before.push(e@));
        i = i + 1;
    }
    assert(texts(list@).take(i as int) =~= texts(list@));
    make_uniq_list(&n)
}

pub open spec fn opt_texts(o: Option<Vec<String>>) -> Option<Seq<Seq<char>>> {
    match o {
        Some(v) => Some(texts(v@)),
        None => None,
    }
}

/// The error of a change of settings: the first refused URL of the new
/// stream list, else of the new AUX inputs.
pub open spec fn input_error(url_list: Option<Seq<Seq<char>>>, aux_in: Option<Seq<Seq<char>>>) -> Option<Seq<char>> {
    let e1 = match url_list {
        Some(l) => first_url_error(l),
        None => None,
    };
    if e1 is Some {
        e1
    } else {
        match aux_in {
            Some(l) => first_url_error(l),
            None => None,
        }
    }
}

impl ConfigDyn {
    /// Applies a change from the web interface. A refused URL leaves the
    /// settings as they were; otherwise each given field replaces the
    /// current one, lists normalised.
    pub fn update(&mut self, nv: ConfigDynInput) -> (r: Option<ConfigDynOutputError>)
        ensures
            match input_error(opt_texts(nv.url_list), opt_texts(nv.aux_in)) {
                Some(m) => (r matches Some(e) && e.err_msg@ == m) && *final(self) == *old(self),
                None => {
                    &&& r is None
                    &&& final(self).theme@ == (match nv.theme {
                        Some(t) => t@,
                        None => old(self).theme@,
                    })
                    &&& final(self).spec_delay == (match nv.spec_delay {
                        Some(d) => d,
                        None => old(self).spec_delay,
                    })
                    &&& texts(final(self).url_list@) == (match nv.url_list {
                        Some(l) => normalized_list(texts(l@)),
                        None => texts(old(self).url_list@),
                    })
                    &&& texts(final(self).aux_in@) == (match nv.aux_in {
                        Some(l) => normalized_list(texts(l@)),
                        None => texts(old(self).aux_in@),
                    })
                },
            },
    {
        if let Some(x) = &nv.url_list {
            let e = check_urls(x);
            if e.is_some() {
                return e;
            }
        }
        if let Some(x) = &nv.aux_in {
            let e = check_urls(x);
            if e.is_some() {
                return e;
            }
        }
        if let Some(t) = nv.theme {
            self.theme = t;
        }
        if let Some(d) = nv.spec_delay {
            self.spec_delay = d;
        }
        if let Some(l) = &nv.url_list {
            self.url_list = normalize_list(l);
        }
        if let Some(l) = &nv.aux_in {
            self.aux_in = normalize_list(l);
        }
        None
    }

    /// Adds a stream URL (trimmed) unless it is listed already.
    pub fn append_url(&mut self, url: &str)
        ensures
            texts(final(self).url_list@) == append_text(texts(old(self).url_list@), url@),
            final(self).theme == old(self).theme,
            final(self).spec_delay == old(self).spec_delay,
            final(self).aux_in == old(self).aux_in,
    {
        let t = trim_string(url);
        if !contains_text(&self.url_list, &t) {
            let ghost before = texts(self.url_list@);
            self.url_list.push(t);
            assert(texts(self.url_list@) =~= before.push(trim(url@)));
        }
    }

    /// The AUX inputs, normalised.
    pub fn aux_in(&self) -> (r: Vec<String>)
        ensures
            texts(r@) == uniq_list(texts(self.aux_in@)),
    {
        make_uniq_list(&self.aux_in)
    }
}

/// The list with `url` (trimmed) added at its end unless it is there.
pub open spec fn append_text(l: Seq<Seq<char>>, url: Seq<char>) -> Seq<Seq<char>> {
    if l.contains(trim(url)) {
        l
    } else {
        l.push(trim(url))
    }
}

/// Adding a URL twice adds it once.
pub proof fn lemma_append_url_idempotent(l: Seq<Seq<char>>, url: Seq<char>)
    ensures
        append_text(append_text(l, url), url) == append_text(l, url),
{
    if !l.contains(trim(url)) {
        assert(l.push(trim(url))[l.len() as int] == trim(url));
    }
}

// ---------------------------------------------------------------------
// The URL MPD reaches the daemon at

/// The port the daemon's URL gets: the bind port, when the configured
/// URL names no port and its scheme's usual port differs from it.
pub open spec fn port_to_set_spec(explicit: Option<u16>, known_default: Option<u16>, bind_port: u16) -> Option<u16> {
    if explicit is None && known_default != Some(bind_port) {
        Some(bind_port)
    } else {
        None
    }
}

pub fn port_to_set(explicit: Option<u16>, known_default: Option<u16>, bind_port: u16) -> (r: Option<u16>)
    ensures
        r == port_to_set_spec(explicit, known_default, bind_port),
{
    if explicit.is_none() {
        match known_default {
            Some(p) => if p != bind_port {
                Some(bind_port)
            } else {
                None
            },
            None => Some(bind_port),
        }
    } else {
        None
    }
}

// The wrappers below hand a URL over as its text: the text is parsed
// with `Url::parse` and the changed URL is written back with
// `Into<String>`. Parsing a URL's own text gives that URL again (the
// `url` crate checks this in `Url::check_invariants`), so a chain of
// these calls does what the same calls on one `Url` value do.

/// The port written in the URL that the text parses to (`Url::port`),
/// `None` when it names none or the text does not parse.
pub uninterp spec fn written_port(s: Seq<char>) -> Option<u16>;

/// `Url::port` of the URL the text parses to.
#[verifier::external_body]
fn url_port(s: &str) -> (r: Option<u16>)
    ensures
        r == written_port(s@),
{
    match url::Url::parse(s) {
        Ok(u) => u.port(),
        Err(_) => None,
    }
}

/// `Url::port_or_known_default` of the URL the text parses to: the
/// written port, else the scheme's usual one; `None` when the text does
/// not parse.
pub uninterp spec fn known_port(s: Seq<char>) -> Option<u16>;

/// `Url::port_or_known_default` of the URL the text parses to.
#[verifier::external_body]
fn url_port_or_known_default(s: &str) -> (r: Option<u16>)
    ensures
        r == known_port(s@),
{
    match url::Url::parse(s) {
        Ok(u) => u.port_or_known_default(),
        Err(_) => None,
    }
}

/// The text of the URL that the text parses to after
/// `Url::set_port(Some(port))` (whose refusal leaves the URL as it is);
/// the text itself when it does not parse.
pub uninterp spec fn port_set(s: Seq<char>, port: u16) -> Seq<char>;

/// `Url::set_port(Some(port))` on the URL the text parses to.
#[verifier::external_body]
fn url_set_port(s: &str, port: u16) -> (r: String)
    ensures
        r@ == port_set(s@, port),
{
    match url::Url::parse(s) {
        Ok(mut u) => {
            u.set_port(Some(port)).ok();
            u.into()
        },
        Err(_) => String::from(s),
    }
}

/// The text of the URL that the text parses to after
/// `Url::set_fragment(None)`; the text itself when it does not parse.
pub uninterp spec fn fragment_cleared(s: Seq<char>) -> Seq<char>;

/// `Url::set_fragment(None)` on the URL the text parses to.
#[verifier::external_body]
fn url_clear_fragment(s: &str) -> (r: String)
    ensures
        r@ == fragment_cleared(s@),
{
    match url::Url::parse(s) {
        Ok(mut u) => {
            u.set_fragment(None);
            u.into()
        },
        Err(_) => String::from(s),
    }
}

/// The text of the URL that the text parses to after
/// `Url::set_path("")`; the text itself when it does not parse.
pub uninterp spec fn path_cleared(s: Seq<char>) -> Seq<char>;

/// `Url::set_path("")` on the URL the text parses to.
#[verifier::external_body]
fn url_clear_path(s: &str) -> (r: String)
    ensures
        r@ == path_cleared(s@),
{
    match url::Url::parse(s) {
        Ok(mut u) => {
            u.set_path("");
            u.into()
        },
        Err(_) => String::from(s),
    }
}

/// The text of the URL that the text parses to after
/// `Url::set_query(None)`; the text itself when it does not parse.
pub uninterp spec fn query_cleared(s: Seq<char>) -> Seq<char>;

/// `Url::set_query(None)` on the URL the text parses to.
#[verifier::external_body]
fn url_clear_query(s: &str) -> (r: String)
    ensures
        r@ == query_cleared(s@),
{
    match url::Url::parse(s) {
        Ok(mut u) => {
            u.set_query(None);
            u.into()
        },
        Err(_) => String::from(s),
    }
}

/// The configured URL of the daemon, or `http://127.0.0.1`.
pub open spec fn self_url_source(c: Config) -> Seq<char> {
    if c.self_url_for_mpd@.len() == 0 {
        "http://127.0.0.1"@
    } else {
        c.self_url_for_mpd@
    }
}

/// The daemon's URL made from the text `src`: the bind port set when the
/// URL names no port and its scheme's usual port differs from it, then
/// the fragment, the path and the query removed.
pub open spec fn self_url_text(src: Seq<char>, bind_port: u16) -> Seq<char> {
    let with_port = match port_to_set_spec(written_port(src), known_port(src), bind_port) {
        Some(p) => port_set(src, p),
        None => src,
    };
    query_cleared(path_cleared(fragment_cleared(with_port)))
}

/// The daemon's URL for MPD, or `None` when the configured one does not
/// parse.
pub open spec fn self_url_spec(c: Config, bind_port: u16) -> Option<Seq<char>> {
    if url_parse_error(self_url_source(c)) is None {
        Some(self_url_text(self_url_source(c), bind_port))
    } else {
        None
    }
}

impl Config {
    /// The URL under which MPD reaches the daemon: the configured one
    /// (or `http://127.0.0.1`) with the bind port when it names none and
    /// its scheme's usual port differs, without path, query or fragment.
    /// `None` when the configured URL does not parse.
    pub fn self_url_for_mpd(&self, bind_port: u16) -> (r: Option<String>)
        ensures
            opt_text(r) == self_url_spec(*self, bind_port),
    {
        let text = if self.self_url_for_mpd.as_str().unicode_len() == 0 {
            String::from_str("http://127.0.0.1")
        } else {
            self.self_url_for_mpd.clone()
        };
        proof {
            reveal_strlit("http://127.0.0.1");
        }
        assert(text@ == self_url_source(*self));
        match url_parse(text.as_str()) {
            Ok(_) => {},
            Err(_) => {
                return None;
            },
        }
        let explicit = url_port(text.as_str());
        let known = url_port_or_known_default(text.as_str());
        let with_port = match port_to_set(explicit, known, bind_port) {
            Some(p) => url_set_port(text.as_str(), p),
            None => text,
        };
        let t = url_clear_fragment(with_port.as_str());
        let t = url_clear_path(t.as_str());
        let t = url_clear_query(t.as_str());
        Some(t)
    }

    /// A source URL of the daemon's own (`asource://..`, `tsource://..`)
    /// made reachable for MPD under the daemon's URL; other URLs, and all
    /// when the daemon's URL does not parse, stay as they are.
    pub fn update_hidamari_url(&self, url: &str, bind_port: u16) -> (r: String)
        ensures
            r@ == hidamari_url(self_url_spec(*self, bind_port), url@),
    {
        let su = self.self_url_for_mpd(bind_port);
        rewrite_hidamari_url(&su, url)
    }
}

/// A source URL of the daemon's own.
pub open spec fn own_source(url: Seq<char>) -> bool {
    starts_with(url, "asource://"@) || starts_with(url, "tsource://"@)
}

/// `url` under the daemon's URL `su`: `su` + scheme + `/` + the rest.
pub open spec fn hidamari_url(su: Option<Seq<char>>, url: Seq<char>) -> Seq<char> {
    match su {
        Some(base) => if own_source(url) {
            base + url.take(7) + "/"@ + url.skip(10)
        } else {
            url
        },
        None => url,
    }
}

pub open spec fn opt_text(o: Option<String>) -> Option<Seq<char>> {
    match o {
        Some(s) => Some(s@),
        None => None,
    }
}

pub fn rewrite_hidamari_url(self_url: &Option<String>, url: &str) -> (r: String)
    ensures
        r@ == hidamari_url(opt_text(*self_url), url@),
{
    match self_url {
        Some(base) => {
            if has_prefix(url, "asource://") || has_prefix(url, "tsource://") {
                proof {
                    reveal_strlit("asource://");
                    reveal_strlit("tsource://");
                }
                let v = str_chars(url);
                let proto = sub_string(&v, 0, 7);
                let tail = sub_string(&v, 10, v.len());
                let mut s = base.clone();
                s.append(proto.as_str());
                s.append("/");
                s.append(tail.as_str());
                proof {
                    assert(v@.subrange(0, 7) =~= url@.take(7));
                    assert(v@.subrange(10, v@.len() as int) =~= url@.skip(10));
                }
                s
            } else {
                String::from_str(url)
            }
        },
        None => String::from_str(url),
    }
}

// ---------------------------------------------------------------------
// Test sounds

/// A decimal digit of Unicode (general category `Nd`, the class `\d`
/// of a Unicode regular expression), by the ranges of Unicode 16.0.
pub open spec fn is_decimal_digit(c: char) -> bool {
    let u = c as u32;
    ||| 0x30 <= u <= 0x39
    ||| 0x660 <= u <= 0x669
    ||| 0x6f0 <= u <= 0x6f9
    ||| 0x7c0 <= u <= 0x7c9
    ||| 0x966 <= u <= 0x96f
    ||| 0x9e6 <= u <= 0x9ef
    ||| 0xa66 <= u <= 0xa6f
    ||| 0xae6 <= u <= 0xaef
    ||| 0xb66 <= u <= 0xb6f
    ||| 0xbe6 <= u <= 0xbef
    ||| 0xc66 <= u <= 0xc6f
    ||| 0xce6 <= u <= 0xcef
    ||| 0xd66 <= u <= 0xd6f
    ||| 0xde6 <= u <= 0xdef
    ||| 0xe50 <= u <= 0xe59
    ||| 0xed0 <= u <= 0xed9
    ||| 0xf20 <= u <= 0xf29
    ||| 0x1040 <= u <= 0x1049
    ||| 0x1090 <= u <= 0x1099
    ||| 0x17e0 <= u <= 0x17e9
    ||| 0x1810 <= u <= 0x1819
    ||| 0x1946 <= u <= 0x194f
    ||| 0x19d0 <= u <= 0x19d9
    ||| 0x1a80 <= u <= 0x1a89
    ||| 0x1a90 <= u <= 0x1a99
    ||| 0x1b50 <= u <= 0x1b59
    ||| 0x1bb0 <= u <= 0x1bb9
    ||| 0x1c40 <= u <= 0x1c49
    ||| 0x1c50 <= u <= 0x1c59
    ||| 0xa620 <= u <= 0xa629
    ||| 0xa8d0 <= u <= 0xa8d9
    ||| 0xa900 <= u <= 0xa909
    ||| 0xa9d0 <= u <= 0xa9d9
    ||| 0xa9f0 <= u <= 0xa9f9
    ||| 0xaa50 <= u <= 0xaa59
    ||| 0xabf0 <= u <= 0xabf9
    ||| 0xff10 <= u <= 0xff19
    ||| 0x104a0 <= u <= 0x104a9
    ||| 0x10d30 <= u <= 0x10d39
    ||| 0x10d40 <= u <= 0x10d49
    ||| 0x11066 <= u <= 0x1106f
    ||| 0x110f0 <= u <= 0x110f9
    ||| 0x11136 <= u <= 0x1113f
    ||| 0x111d0 <= u <= 0x111d9
    ||| 0x112f0 <= u <= 0x112f9
    ||| 0x11450 <= u <= 0x11459
    ||| 0x114d0 <= u <= 0x114d9
    ||| 0x11650 <= u <= 0x11659
    ||| 0x116c0 <= u <= 0x116c9
    ||| 0x116d0 <= u <= 0x116e3
    ||| 0x11730 <= u <= 0x11739
    ||| 0x118e0 <= u <= 0x118e9
    ||| 0x11950 <= u <= 0x11959
    ||| 0x11bf0 <= u <= 0x11bf9
    ||| 0x11c50 <= u <= 0x11c59
    ||| 0x11d50 <= u <= 0x11d59
    ||| 0x11da0 <= u <= 0x11da9
    ||| 0x11f50 <= u <= 0x11f59
    ||| 0x16130 <= u <= 0x16139
    ||| 0x16a60 <= u <= 0x16a69
    ||| 0x16ac0 <= u <= 0x16ac9
    ||| 0x16b50 <= u <= 0x16b59
    ||| 0x16d70 <= u <= 0x16d79
    ||| 0x1ccf0 <= u <= 0x1ccf9
    ||| 0x1d7ce <= u <= 0x1d7ff
    ||| 0x1e140 <= u <= 0x1e149
    ||| 0x1e2f0 <= u <= 0x1e2f9
    ||| 0x1e4f0 <= u <= 0x1e4f9
    ||| 0x1e5f1 <= u <= 0x1e5fa
    ||| 0x1e950 <= u <= 0x1e959
    ||| 0x1fbf0 <= u <= 0x1fbf9
}

pub fn decimal_digit(c: char) -> (r: bool)
    ensures
        r == is_decimal_digit(c),
{
    let u = c as u32;
    (0x30 <= u && u <= 0x39) ||
        (0x660 <= u && u <= 0x669) ||
        (0x6f0 <= u && u <= 0x6f9) ||
        (0x7c0 <= u && u <= 0x7c9) ||
        (0x966 <= u && u <= 0x96f) ||
        (0x9e6 <= u && u <= 0x9ef) ||
        (0xa66 <= u && u <= 0xa6f) ||
        (0xae6 <= u && u <= 0xaef) ||
        (0xb66 <= u && u <= 0xb6f) ||
        (0xbe6 <= u && u <= 0xbef) ||
        (0xc66 <= u && u <= 0xc6f) ||
        (0xce6 <= u && u <= 0xcef) ||
        (0xd66 <= u && u <= 0xd6f) ||
        (0xde6 <= u && u <= 0xdef) ||
        (0xe50 <= u && u <= 0xe59) ||
        (0xed0 <= u && u <= 0xed9) ||
        (0xf20 <= u && u <= 0xf29) ||
        (0x1040 <= u && u <= 0x1049) ||
        (0x1090 <= u && u <= 0x1099) ||
        (0x17e0 <= u && u <= 0x17e9) ||
        (0x1810 <= u && u <= 0x1819) ||
        (0x1946 <= u && u <= 0x194f) ||
        (0x19d0 <= u && u <= 0x19d9) ||
        (0x1a80 <= u && u <= 0x1a89) ||
        (0x1a90 <= u && u <= 0x1a99) ||
        (0x1b50 <= u && u <= 0x1b59) ||
        (0x1bb0 <= u && u <= 0x1bb9) ||
        (0x1c40 <= u && u <= 0x1c49) ||
        (0x1c50 <= u && u <= 0x1c59) ||
        (0xa620 <= u && u <= 0xa629) ||
        (0xa8d0 <= u && u <= 0xa8d9) ||
        (0xa900 <= u && u <= 0xa909) ||
        (0xa9d0 <= u && u <= 0xa9d9) ||
        (0xa9f0 <= u && u <= 0xa9f9) ||
        (0xaa50 <= u && u <= 0xaa59) ||
        (0xabf0 <= u && u <= 0xabf9) ||
        (0xff10 <= u && u <= 0xff19) ||
        (0x104a0 <= u && u <= 0x104a9) ||
        (0x10d30 <= u && u <= 0x10d39) ||
        (0x10d40 <= u && u <= 0x10d49) ||
        (0x11066 <= u && u <= 0x1106f) ||
        (0x110f0 <= u && u <= 0x110f9) ||
        (0x11136 <= u && u <= 0x1113f) ||
        (0x111d0 <= u && u <= 0x111d9) ||
        (0x112f0 <= u && u <= 0x112f9) ||
        (0x11450 <= u && u <= 0x11459) ||
        (0x114d0 <= u && u <= 0x114d9) ||
        (0x11650 <= u && u <= 0x11659) ||
        (0x116c0 <= u && u <= 0x116c9) ||
        (0x116d0 <= u && u <= 0x116e3) ||
        (0x11730 <= u && u <= 0x11739) ||
        (0x118e0 <= u && u <= 0x118e9) ||
        (0x11950 <= u && u <= 0x11959) ||
        (0x11bf0 <= u && u <= 0x11bf9) ||
        (0x11c50 <= u && u <= 0x11c59) ||
        (0x11d50 <= u && u <= 0x11d59) ||
        (0x11da0 <= u && u <= 0x11da9) ||
        (0x11f50 <= u && u <= 0x11f59) ||
        (0x16130 <= u && u <= 0x16139) ||
        (0x16a60 <= u && u <= 0x16a69) ||
        (0x16ac0 <= u && u <= 0x16ac9) ||
        (0x16b50 <= u && u <= 0x16b59) ||
        (0x16d70 <= u && u <= 0x16d79) ||
        (0x1ccf0 <= u && u <= 0x1ccf9) ||
        (0x1d7ce <= u && u <= 0x1d7ff) ||
        (0x1e140 <= u && u <= 0x1e149) ||
        (0x1e2f0 <= u && u <= 0x1e2f9) ||
        (0x1e4f0 <= u && u <= 0x1e4f9) ||
        (0x1e5f1 <= u && u <= 0x1e5fa) ||
        (0x1e950 <= u && u <= 0x1e959) ||
        (0x1fbf0 <= u && u <= 0x1fbf9)
}

/// The number of decimal digits in a row at `i`.
pub open spec fn digit_run(s: Seq<char>, i: int) -> nat
    decreases s.len() - i,
{
    if 0 <= i < s.len() && is_decimal_digit(s[i]) {
        1 + digit_run(s, i + 1)
    } else {
        0
    }
}

/// `r` holds `mp3` at `q`, with at least two characters before it and no
/// line break among them.
pub open spec fn mp3_at(r: Seq<char>, q: int) -> bool {
    &&& 2 <= q
    &&& q + 3 <= r.len()
    &&& r.subrange(q, q + 3) == "mp3"@
    &&& forall|k: int| 0 <= k < q ==> r[k] != '\n'
}

/// The names of test sounds: `test-<rate>-<digit>-<bits>-<n>s-<title>.mp3`
/// as the pattern `^test-\d+-\d-\d+-\d+s-(.+).mp3` reads them (`\d`
/// being any Unicode decimal digit): after the prefix, some text, one more character and
/// `mp3` (the pattern's `.` takes any character but a line break).
pub open spec fn testsound_name(n: Seq<char>) -> bool {
    let d1: int = digit_run(n, 5) as int;
    let i2: int = 5 + d1 + 1;
    let i3: int = i2 + 2;
    let d3: int = digit_run(n, i3) as int;
    let i4: int = i3 + d3 + 1;
    let d4: int = digit_run(n, i4) as int;
    let rest: int = i4 + d4 + 2;
    &&& starts_with(n, "test-"@)
    &&& d1 >= 1
    &&& i2 + 1 < n.len()
    &&& n[5 + d1] == '-'
    &&& is_decimal_digit(n[i2])
    &&& n[i2 + 1] == '-'
    &&& d3 >= 1
    &&& i4 < n.len()
    &&& n[i3 + d3] == '-'
    &&& d4 >= 1
    &&& rest <= n.len()
    &&& n[i4 + d4] == 's'
    &&& n[i4 + d4 + 1] == '-'
    &&& exists|q: int| mp3_at(n.skip(rest), q)
}

proof fn lemma_digit_run_bound(s: Seq<char>, i: int)
    ensures
        0 <= i <= s.len() ==> i + digit_run(s, i) <= s.len(),
        0 <= i ==> (forall|k: int| i <= k < i + digit_run(s, i) ==> is_decimal_digit(#[trigger] s[k])),
    decreases s.len() - i,
{
    if 0 <= i < s.len() && is_decimal_digit(s[i]) {
        lemma_digit_run_bound(s, i + 1);
    }
}

fn digit_run_exec(v: &Vec<char>, i: usize) -> (r: usize)
    requires
        i <= v.len(),
    ensures
        r == digit_run(v@, i as int),
        i + r <= v.len(),
{
    let mut j: usize = i;
    proof {
        lemma_digit_run_bound(v@, i as int);
    }
    while j < v.len() && decimal_digit(v[j])
        invariant
            i <= j <= v.len(),
            digit_run(v@, i as int) == (j - i) + digit_run(v@, j as int),
        decreases v.len() - j,
    {
        j = j + 1;
    }
    j - i
}

/// Whether a file name is that of a test sound.
pub fn is_testsound_name(name: &str) -> (r: bool)
    ensures
        r == testsound_name(name@),
{
    let v = str_chars(name);
    let n = v.len();
    if !has_prefix(name, "test-") {
        return false;
    }
    proof {
        reveal_strlit("test-");
    }
    let d1 = digit_run_exec(&v, 5);
    if d1 < 1 || n - 5 - d1 <= 2 || v[5 + d1] != '-' {
        return false;
    }
    let i2 = 5 + d1 + 1;
    if !decimal_digit(v[i2]) || v[i2 + 1] != '-' {
        return false;
    }
    let i3 = i2 + 2;
    let d3 = digit_run_exec(&v, i3);
    if d3 < 1 || n - i3 - d3 <= 1 || v[i3 + d3] != '-' {
        return false;
    }
    let i4 = i3 + d3 + 1;
    let d4 = digit_run_exec(&v, i4);
    if d4 < 1 || n - i4 - d4 < 2 || v[i4 + d4] != 's' || v[i4 + d4 + 1] != '-' {
        return false;
    }
    let rest = i4 + d4 + 2;
    let ghost r = v@.skip(rest as int);
    assert(testsound_name(name@) == exists|p: int| mp3_at(r, p));
    let mut q: usize = 2;
    while q < n - rest && n - rest - q >= 3
        invariant
            2 <= q,
            rest <= n,
            n == v@.len(),
            r == v@.skip(rest as int),
            r.len() == n - rest,
            testsound_name(name@) == exists|p: int| mp3_at(r, p),
            forall|k: int| 0 <= k < q - 2 ==> r[k] != '\n',
            forall|p: int| 2 <= p < q ==> !mp3_at(r, p),
        decreases n - q,
    {
        if v[rest + q - 2] == '\n' || v[rest + q - 1] == '\n' {
            proof {
                assert forall|p: int| q <= p implies !mp3_at(r, p) by {
                    if v@[rest + q - 2] == '\n' {
                        assert(r[q - 2] == '\n');
                    } else {
                        assert(r[q - 1] == '\n');
                    }
                }
                assert forall|p: int| !mp3_at(r, p) by {
                    if 2 <= p < q {
                    }
                }
            }
            return false;
        }
        if v[rest + q] == 'm' && v[rest + q + 1] == 'p' && v[rest + q + 2] == '3' {
            proof {
                reveal_strlit("mp3");
                assert(r.subrange(q as int, q + 3) =~= "mp3"@);
                assert forall|k: int| 0 <= k < q implies r[k] != '\n' by {
                    if k == q - 2 {
                        assert(r[k] == v@[rest + q - 2]);
                    } else if k == q - 1 {
                        assert(r[k] == v@[rest + q - 1]);
                    }
                }
                assert(mp3_at(r, q as int));
            }
            return true;
        }
        proof {
            reveal_strlit("mp3");
            assert(!mp3_at(r, q as int)) by {
                if r.subrange(q as int, q + 3) == "mp3"@ {
                    assert(r.subrange(q as int, q + 3)[0] == r[q as int]);
                    assert(r.subrange(q as int, q + 3)[1] == r[q + 1]);
                    assert(r.subrange(q as int, q + 3)[2] == r[q + 2]);
                }
            }
            assert(r[q - 2] == v@[rest + q - 2]);
        }
        q = q + 1;
    }
    proof {
        assert forall|p: int| !mp3_at(r, p) by {
        }
    }
    false
}

/// `s.trim_matches(|c| c == ' ' || c == '\0')`.
pub open spec fn trim_title_spec(s: Seq<char>) -> Seq<char>
    decreases s.len(),
{
    if s.len() > 0 && (s[0] == ' ' || s[0] == '\0') {
        trim_title_spec(s.drop_first())
    } else if s.len() > 0 && (s.last() == ' ' || s.last() == '\0') {
        trim_title_spec(s.drop_last())
    } else {
        s
    }
}

/// The title of a test sound, from its tags: the last title of the
/// frames that carry one, without surrounding spaces and NULs; when that
/// is empty, the ID3v1 title as it is, if there is one.
pub open spec fn pick_title_spec(frame_titles: Seq<Option<Seq<char>>>, tag_title: Option<Seq<char>>) -> Seq<char> {
    let found = last_title(frame_titles);
    if found.len() == 0 {
        match tag_title {
            Some(t) => t,
            None => found,
        }
    } else {
        trim_title_spec(found)
    }
}

/// The last title present, or nothing.
pub open spec fn last_title(t: Seq<Option<Seq<char>>>) -> Seq<char>
    decreases t.len(),
{
    if t.len() == 0 {
        Seq::empty()
    } else {
        match t.last() {
            Some(x) => x,
            None => last_title(t.drop_last()),
        }
    }
}

fn trim_title(s: &String) -> (r: String)
    ensures
        r@ == trim_title_spec(s@),
{
    let v = str_chars(s.as_str());
    let mut a: usize = 0;
    let mut b: usize = v.len();
    assert(v@.subrange(0, v@.len() as int) =~= v@);
    while a < b && (v[a] == ' ' || v[a] == '\0')
        invariant
            a <= b == v.len(),
            trim_title_spec(v@) == trim_title_spec(v@.subrange(a as int, b as int)),
        decreases b - a,
    {
        assert(v@.subrange(a as int, b as int).drop_first() =~= v@.subrange(a + 1, b as int));
        a = a + 1;
    }
    while b > a && (v[b - 1] == ' ' || v[b - 1] == '\0')
        invariant
            a <= b <= v.len(),
            a == b || !(v@[a as int] == ' ' || v@[a as int] == '\0'),
            trim_title_spec(v@) == trim_title_spec(v@.subrange(a as int, b as int)),
        decreases b - a,
    {
        let ghost t = v@.subrange(a as int, b as int);
        assert(t[0] == v@[a as int]);
        assert(t.drop_last() =~= v@.subrange(a as int, b - 1));
        b = b - 1;
    }
    proof {
        let t = v@.subrange(a as int, b as int);
        if t.len() > 0 {
            assert(t[0] == v@[a as int]);
            assert(t.last() == v@[b - 1]);
        }
    }
    sub_string(&v, a, b)
}

pub open spec fn opt_texts_of(s: Seq<Option<String>>) -> Seq<Option<Seq<char>>> {
    s.map_values(|o: Option<String>| opt_text(o))
}

/// The title shown for a test sound.
pub fn pick_title(frame_titles: &Vec<Option<String>>, tag_title: &Option<String>) -> (r: String)
    ensures
        r@ == pick_title_spec(opt_texts_of(frame_titles@), opt_text(*tag_title)),
{
    let mut i: usize = frame_titles.len();
    let mut found: Option<String> = None;
    assert(opt_texts_of(frame_titles@).take(i as int) =~= opt_texts_of(frame_titles@));
    while i > 0 && found.is_none()
        invariant
            i <= frame_titles@.len(),
            match found {
                Some(f) => f@ == last_title(opt_texts_of(frame_titles@)),
                None => last_title(opt_texts_of(frame_titles@)) == last_title(opt_texts_of(frame_titles@).take(i as int)),
            },
        decreases i + (if found is None { 1int } else { 0int }),
    {
        let ghost pre = opt_texts_of(frame_titles@).take(i as int);
        assert(pre.drop_last() =~= opt_texts_of(frame_titles@).take(i - 1));
        assert(pre.last() == opt_text(frame_titles@[i - 1]));
        match &frame_titles[i - 1] {
            Some(t) => {
                found = Some(t.clone());
            },
            None => {},
        }
        i = i - 1;
    }
    let title = match found {
        Some(t) => t,
        None => {
            assert(opt_texts_of(frame_titles@).take(0) =~= Seq::<Option<Seq<char>>>::empty());
            String::new()
        },
    };
    if title.as_str().unicode_len() == 0 {
        match tag_title {
            Some(t) => t.clone(),
            None => title,
        }
    } else {
        trim_title(&title)
    }
}

/// The URL of a test sound: under the daemon's URL, in `tsource/`.
pub fn testsound_url(self_url: &String, file_name: &String) -> (r: String)
    ensures
        r@ == self_url@ + TESTSOUND_URL_PATH@ + "/"@ + file_name@,
{
    let mut s = self_url.clone();
    s.append(TESTSOUND_URL_PATH);
    s.append("/");
    s.append(file_name.as_str());
    s
}

/// A test sound: its URL and its title.
pub struct TestSound {
    pub url: String,
    pub title: String,
}

/// Test sounds are listed by URL.
impl Keyed for TestSound {
    open spec fn sort_key(&self) -> Seq<char> {
        self.url@
    }

    fn key_chars(&self) -> (r: Vec<char>) {
        str_chars(self.url.as_str())
    }
}

/// The test sounds in order of their URLs (sounds of one URL keep their
/// order).
pub fn sort_testsounds(list: &mut Vec<TestSound>)
    ensures
        sorted_by_key(final(list)@),
        final(list)@.to_multiset() == old(list)@.to_multiset(),
        forall|k: Seq<char>| #[trigger] final(list)@.filter(key_is(k)) == old(list)@.filter(key_is(k)),
{
    sort_by_key(list)
}

// ---------------------------------------------------------------------
// Reply tokens

pub open spec fn is_hex_char(c: char) -> bool {
    ('0' <= c && c <= '9') || ('a' <= c && c <= 'f')
}

fn hex_digits() -> (r: Vec<char>)
    ensures
        r@ == seq!['0', '1', '2', '3', '4', '5', '6', '7', '8', '9', 'a', 'b', 'c', 'd', 'e', 'f'],
{
    vec!['0', '1', '2', '3', '4', '5', '6', '7', '8', '9', 'a', 'b', 'c', 'd', 'e', 'f']
}

/// A token naming a pairing notice: the sixteen hexadecimal digits in
/// random order.
pub fn make_random_token(rng: &mut rand::rngs::StdRng) -> (r: String)
    ensures
        r@.len() == 16,
        all_distinct(r@),
        forall|i: int| 0 <= i < r@.len() ==> is_hex_char(#[trigger] r@[i]),
{
    let src = hex_digits();
    let sel = choose_multiple(rng, src.as_slice(), 16);
    proof {
        let idx = choose|idx: Seq<int>| drawn_without_repetition(sel@, src@, idx);
        lemma_drawn_distinct(sel@, src@, idx);
        assert forall|i: int| 0 <= i < sel@.len() implies is_hex_char(#[trigger] sel@[i]) by {
            assert(0 <= idx[i] < 16);
        }
    }
    crate::text::string_from_chars(sel.as_slice())
}

} // verus!
