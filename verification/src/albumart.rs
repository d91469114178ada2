//! Album art: which path may be asked for, where the picture is looked
//! for (tags of the file itself, picture files beside it, a UPnP media
//! server), and the cache of answers.

use vstd::prelude::*;
use std::sync::Arc;
use crate::text::{str_chars, sub_string, has_prefix};
use crate::web::{resolve_path, check_path as resolve_request_path, split_on, split_segments, segs_view, guessed_mime, guess_mime};

verus! {

/// How long a cached answer is used: 15 minutes.
pub const ALBUMART_CACHE_EXPIRE_NANOS: u64 = 900_000_000_000;

/// How many answers the cache keeps.
pub const ALBUMART_CACHE_MAX_ENTRY: usize = 1024;

/// Picture files beside the music are used below this size (256 KiB).
pub const ALBUMART_ALT_IMG_MAXLEN: u64 = 262144;

/// An answer: a bad request, nothing found (`NotFoundNoCache`, used
/// inside only, is not kept in the cache), or a picture with its MIME
/// type and time (seconds since the epoch).
pub enum AlbumartResult {
    BadRequest,
    NotFound,
    NotFoundNoCache,
    Binary(String, i64, Arc<Vec<u8>>),
}

/// A cached answer and when it was stored (on the daemon's monotonic
/// clock, in nanoseconds).
pub struct AlbumartCacheEntry {
    pub art: AlbumartResult,
    pub stored_nanos: u64,
}

// ---------------------------------------------------------------------
// The requested path

/// The path with one leading `/` removed, or else one trailing `/`.
pub open spec fn strip_slashes(p: Seq<char>) -> Seq<char> {
    if p.len() > 0 && p[0] == '/' {
        if p.last() == '/' {
            p.drop_last()
        } else {
            p.drop_first()
        }
    } else if p.len() > 0 && p.last() == '/' {
        p.drop_last()
    } else {
        p
    }
}

/// The album path asked for, resolved as a file path is (no `\`, no
/// `..` above the top), or `None` for a bad request.
pub fn check_path(path: &str) -> (r: Option<String>)
    ensures
        match resolve_path(strip_slashes(path@)) {
            Some(p) => (r matches Some(x) && x@ == p),
            None => r is None,
        },
{
    let v = str_chars(path);
    let n = v.len();
    let stripped = if n > 0 && v[0] == '/' {
        if v[n - 1] == '/' {
            sub_string(&v, 0, n - 1)
        } else {
            sub_string(&v, 1, n)
        }
    } else if n > 0 && v[n - 1] == '/' {
        sub_string(&v, 0, n - 1)
    } else {
        sub_string(&v, 0, n)
    };
    proof {
        assert(v@.subrange(0, n - 1) =~= v@.drop_last());
        assert(v@.subrange(1, n as int) =~= v@.drop_first());
        assert(v@.subrange(0, n as int) =~= v@);
    }
    resolve_request_path(stripped.as_str())
}

// ---------------------------------------------------------------------
// UPnP media server

/// The arguments of a `Browse` action listing the children of a
/// container.
pub open spec fn browse_args_spec(objectid: Seq<char>) -> Seq<char> {
    "\n<ObjectID>"@ + objectid
        + "</ObjectID>\n<BrowseFlag>BrowseDirectChildren</BrowseFlag>\n<Filter>*</Filter>\n<StartingIndex>0</StartingIndex>\n<RequestedCount>0</RequestedCount>\n<SortCriteria></SortCriteria>\n"@
}

pub fn arg_browse_direct_children(objectid: &str) -> (r: String)
    ensures
        r@ == browse_args_spec(objectid@),
{
    let mut s = String::from_str("\n<ObjectID>");
    s.append(objectid);
    s.append(
        "</ObjectID>\n<BrowseFlag>BrowseDirectChildren</BrowseFlag>\n<Filter>*</Filter>\n<StartingIndex>0</StartingIndex>\n<RequestedCount>0</RequestedCount>\n<SortCriteria></SortCriteria>\n",
    );
    s
}

/// Where a browse of the media server stands: a container to look into
/// next, or an item with its album art URI.
pub enum IdType {
    Container(String),
    Item(String, String),
}

/// An `IdType` as a value of the contracts.
pub enum IdView {
    Container(Seq<char>),
    Item(Seq<char>, Seq<char>),
}

impl IdType {
    pub open spec fn view(&self) -> IdView {
        match *self {
            IdType::Container(id) => IdView::Container(id@),
            IdType::Item(id, uri) => IdView::Item(id@, uri@),
        }
    }
}

/// A node of a `Browse` result, in document order: the local name of an
/// element (`None` for other nodes), an element's text, the parent's
/// index and the element's `id` attribute.
pub struct XmlNode {
    pub tag: Option<String>,
    pub text: Option<String>,
    pub parent: Option<usize>,
    pub id: Option<String>,
}

/// Parents come before their children.
pub open spec fn well_formed_nodes(nodes: Seq<XmlNode>) -> bool {
    forall|i: int| 0 <= i < nodes.len() ==> match (#[trigger] nodes[i]).parent {
        Some(p) => 0 <= p < i,
        None => true,
    }
}

/// Node `j` lies under node `a`, or is `a`.
pub open spec fn under(nodes: Seq<XmlNode>, j: int, a: int) -> bool
    decreases j,
{
    if j == a {
        true
    } else if 0 <= j < nodes.len() {
        match nodes[j].parent {
            Some(p) => if 0 <= p < j {
                under(nodes, p as int, a)
            } else {
                false
            },
            None => false,
        }
    } else {
        false
    }
}

pub open spec fn opt_seq(o: Option<String>) -> Option<Seq<char>> {
    match o {
        Some(s) => Some(s@),
        None => None,
    }
}

/// Node `i` is a `title` element with the text `target`.
pub open spec fn is_title_of(nodes: Seq<XmlNode>, i: int, target: Seq<char>) -> bool {
    opt_seq(nodes[i].tag) == Some("title"@) && opt_seq(nodes[i].text) == Some(target)
}

/// Node `k` is an `albumArtURI` element under node `a`.
pub open spec fn is_art_under(nodes: Seq<XmlNode>, k: int, a: int) -> bool {
    under(nodes, k, a) && opt_seq(nodes[k].tag) == Some("albumArtURI"@)
}

/// The first node from 0 for which `f` holds.
pub open spec fn first_where(n: int, f: spec_fn(int) -> bool) -> Option<int> {
    if exists|i: int| 0 <= i < n && #[trigger] f(i) {
        Some(choose|i: int| 0 <= i < n && #[trigger] f(i) && forall|h: int| 0 <= h < i ==> !#[trigger] f(h))
    } else {
        None
    }
}

/// The item's album art: the text of the first `albumArtURI` element
/// under it.
pub open spec fn item_art(nodes: Seq<XmlNode>, p: int) -> Option<Seq<char>> {
    match first_where(nodes.len() as int, |k: int| is_art_under(nodes, k, p)) {
        Some(k) => opt_seq(nodes[k].text),
        None => None,
    }
}

/// What the first `title` element with the text `target` names: its
/// parent container, by `id`; or its parent item, by `id` with the item's
/// album art. `None` in every other case.
pub open spec fn find_spec(nodes: Seq<XmlNode>, target: Seq<char>) -> Option<IdView> {
    match first_where(nodes.len() as int, |i: int| is_title_of(nodes, i, target)) {
        None => None,
        Some(i) => match nodes[i].parent {
            None => None,
            Some(p) => {
                let pn = nodes[p as int];
                if opt_seq(pn.tag) == Some("container"@) {
                    match opt_seq(pn.id) {
                        Some(id) => Some(IdView::Container(id)),
                        None => None,
                    }
                } else if opt_seq(pn.tag) == Some("item"@) {
                    match (opt_seq(pn.id), item_art(nodes, p as int)) {
                        (Some(id), Some(uri)) => Some(IdView::Item(id, uri)),
                        _ => None,
                    }
                } else {
                    None
                }
            },
        },
    }
}

fn opt_is(o: &Option<String>, t: &str) -> (r: bool)
    ensures
        r == (opt_seq(*o) == Some(t@)),
{
    match o {
        Some(s) => *s == String::from_str(t),
        None => false,
    }
}

fn is_under(nodes: &Vec<XmlNode>, k: usize, a: usize) -> (r: bool)
    requires
        well_formed_nodes(nodes@),
        k < nodes@.len(),
        a < nodes@.len(),
    ensures
        r == under(nodes@, k as int, a as int),
{
    let mut j: usize = k;
    while j != a
        invariant
            well_formed_nodes(nodes@),
            j < nodes@.len(),
            a < nodes@.len(),
            under(nodes@, k as int, a as int) == under(nodes@, j as int, a as int),
        decreases j,
    {
        match nodes[j].parent {
            Some(p) => {
                assert(0 <= p < j) by {
                    assert(match nodes@[j as int].parent {
                        Some(p) => 0 <= p < j,
                        None => true,
                    });
                }
                j = p;
            },
            None => {
                return false;
            },
        }
    }
    true
}

proof fn lemma_first_where(n: int, f: spec_fn(int) -> bool, i: int)
    requires
        0 <= i < n,
        f(i),
        forall|h: int| 0 <= h < i ==> !#[trigger] f(h),
    ensures
        first_where(n, f) == Some(i),
{
    let c = choose|c: int| 0 <= c < n && #[trigger] f(c) && forall|h: int| 0 <= h < c ==> !#[trigger] f(h);
    assert(0 <= c < n && f(c) && forall|h: int| 0 <= h < c ==> !#[trigger] f(h));
    if c < i {
        assert(!f(c));
    } else if i < c {
        assert(!f(i));
    }
}

proof fn lemma_first_where_none(n: int, f: spec_fn(int) -> bool)
    requires
        forall|h: int| 0 <= h < n ==> !#[trigger] f(h),
    ensures
        first_where(n, f) is None,
{
}

/// The container or item that the `title` element with text `target`
/// names in a `Browse` result.
pub fn find_in_nodes(nodes: &Vec<XmlNode>, target: &str) -> (r: Option<IdType>)
    requires
        well_formed_nodes(nodes@),
    ensures
        match find_spec(nodes@, target@) {
            Some(v) => (r matches Some(x) && x@ == v),
            None => r is None,
        },
{
    let ghost ft = |i: int| is_title_of(nodes@, i, target@);
    let mut i: usize = 0;
    let mut hit = false;
    while i < nodes.len() && !hit
        invariant
            i <= nodes@.len(),
            hit ==> i < nodes@.len() && is_title_of(nodes@, i as int, target@),
            forall|h: int| 0 <= h < i ==> !is_title_of(nodes@, h, target@),
        decreases nodes.len() - i + (if hit { 0int } else { 1int }),
    {
        if opt_is(&nodes[i].tag, "title") && opt_is(&nodes[i].text, target) {
            hit = true;
        } else {
            i = i + 1;
        }
    }
    if !hit {
        proof {
            lemma_first_where_none(nodes@.len() as int, ft);
        }
        return None;
    }
    proof {
        lemma_first_where(nodes@.len() as int, ft, i as int);
    }
    let p = match nodes[i].parent {
        Some(p) => p,
        None => {
            return None;
        },
    };
    assert(p < i) by {
        assert(match nodes@[i as int].parent {
            Some(p) => 0 <= p < i,
            None => true,
        });
    }
    if opt_is(&nodes[p].tag, "container") {
        match &nodes[p].id {
            Some(id) => {
                return Some(IdType::Container(id.clone()));
            },
            None => {
                return None;
            },
        }
    }
    if !opt_is(&nodes[p].tag, "item") {
        proof {
            reveal_strlit("item");
            reveal_strlit("container");
        }
        return None;
    }
    let id = match &nodes[p].id {
        Some(id) => id.clone(),
        None => {
            return None;
        },
    };
    let ghost fa = |k: int| is_art_under(nodes@, k, p as int);
    let mut k: usize = 0;
    let mut hit2 = false;
    while k < nodes.len() && !hit2
        invariant
            k <= nodes@.len(),
            p < nodes@.len(),
            well_formed_nodes(nodes@),
            hit2 ==> k < nodes@.len() && is_art_under(nodes@, k as int, p as int),
            forall|h: int| 0 <= h < k ==> !is_art_under(nodes@, h, p as int),
        decreases nodes.len() - k + (if hit2 { 0int } else { 1int }),
    {
        if opt_is(&nodes[k].tag, "albumArtURI") && is_under(nodes, k, p) {
            hit2 = true;
        } else {
            k = k + 1;
        }
    }
    if !hit2 {
        proof {
            lemma_first_where_none(nodes@.len() as int, fa);
        }
        return None;
    }
    proof {
        lemma_first_where(nodes@.len() as int, fa, k as int);
    }
    match &nodes[k].text {
        Some(uri) => Some(IdType::Item(id, uri.clone())),
        None => None,
    }
}

/// The nodes of an XML text, as `roxmltree` reads them: `None` when it
/// does not parse. This depends on the text alone.
pub uninterp spec fn xml_nodes(xml: Seq<char>) -> Option<Seq<XmlNode>>;

pub open spec fn opt_nodes(o: Option<Vec<XmlNode>>) -> Option<Seq<XmlNode>> {
    match o {
        Some(v) => Some(v@),
        None => None,
    }
}

/// `roxmltree::Document::parse(xml)` with its nodes in document order
/// (`descendants` of the root): element names without namespace, element
/// texts, parents by index and `id` attributes. Its contract: the result
/// is `xml_nodes` of the text, and each node's parent comes before it, as
/// the parser stores nodes in document order.
#[verifier::external_body]
fn parse_xml_nodes(xml: &str) -> (r: Option<Vec<XmlNode>>)
    ensures
        opt_nodes(r) == xml_nodes(xml@),
        r matches Some(n) ==> well_formed_nodes(n@),
{
    let doc = roxmltree::Document::parse(xml).ok()?;
    Some(doc.descendants().map(|n| XmlNode {
        tag: if n.is_element() { Some(String::from(n.tag_name().name())) } else { None },
        text: if n.is_element() { n.text().map(String::from) } else { None },
        parent: n.parent().map(|p| p.id().get_usize()),
        id: n.attribute("id").map(String::from),
    }).collect())
}

/// `find_from_xml`: what the `title` `target` names in a `Browse`
/// result; `None` when the result does not parse.
pub fn find_from_xml(xml: &str, target: &str) -> (r: Option<IdType>)
    ensures
        match xml_nodes(xml@) {
            None => r is None,
            Some(nodes) => well_formed_nodes(nodes) && match find_spec(nodes, target@) {
                Some(v) => (r matches Some(x) && x@ == v),
                None => r is None,
            },
        },
{
    match parse_xml_nodes(xml) {
        Some(nodes) => find_in_nodes(&nodes, target),
        None => None,
    }
}

/// A request to the media server: the server's name (the path's first
/// piece) and the titles to walk down (the other pieces). A path of one
/// piece asks for nothing.
pub open spec fn upnp_request_spec(path: Seq<char>) -> Option<(Seq<char>, Seq<Seq<char>>)> {
    let sp = split_on(path, '/');
    if sp.len() < 2 {
        None
    } else {
        Some((sp[0], sp.drop_first()))
    }
}

pub open spec fn strings_view(v: Seq<String>) -> Seq<Seq<char>> {
    v.map_values(|s: String| s@)
}

pub fn upnp_request(path: &str) -> (r: Option<(String, Vec<String>)>)
    ensures
        match upnp_request_spec(path@) {
            Some((d, parts)) => (r matches Some(x) && x.0@ == d && strings_view(x.1@) == parts),
            None => r is None,
        },
{
    let v = str_chars(path);
    let segs = split_segments(&v);
    assert(segs_view(segs@).len() == segs@.len());
    if segs.len() < 2 {
        return None;
    }
    let device = crate::text::string_from_chars(segs[0].as_slice());
    assert(segs_view(segs@)[0] == segs@[0]@);
    let mut parts: Vec<String> = Vec::new();
    let mut i: usize = 1;
    while i < segs.len()
        invariant
            1 <= i <= segs@.len(),
            strings_view(parts@) == segs_view(segs@).subrange(1, i as int),
        decreases segs.len() - i,
    {
        let s = crate::text::string_from_chars(segs[i].as_slice());
        assert(segs_view(segs@)[i as int] == segs@[i as int]@);
        let ghost before = strings_view(parts@);
        parts.push(s);
        assert(strings_view(parts@) =~= before.push(s@));
        assert(strings_view(parts@) =~= segs_view(segs@).subrange(1, i + 1));
        i = i + 1;
    }
    assert(segs_view(segs@).subrange(1, i as int) =~= segs_view(segs@).drop_first());
    Some((device, parts))
}

/// The container to browse next, while the walk stands on one.
pub fn browse_target(id: &Option<IdType>) -> (r: Option<String>)
    ensures
        match *id {
            Some(IdType::Container(x)) => (r matches Some(t) && t@ == x@),
            _ => r is None,
        },
{
    match id {
        Some(IdType::Container(x)) => Some(x.clone()),
        _ => None,
    }
}

/// The album art URI the walk ended on, if it ended on an item.
pub fn walk_art_uri(id: &Option<IdType>) -> (r: Option<String>)
    ensures
        match *id {
            Some(IdType::Item(_, uri)) => (r matches Some(t) && t@ == uri@),
            _ => r is None,
        },
{
    match id {
        Some(IdType::Item(_, uri)) => Some(uri.clone()),
        _ => None,
    }
}

// ---------------------------------------------------------------------
// Files beside the music

/// Where the tags of a music file are read from, by its extension.
pub enum TagSource {
    Mp4,
    Id3,
    Flac,
    Unsupported,
}

pub open spec fn tag_source_spec(ext: Seq<char>) -> TagSource {
    if ext == "m4a"@ || ext == "m4b"@ || ext == "m4p"@ {
        TagSource::Mp4
    } else if ext == "mp3"@ {
        TagSource::Id3
    } else if ext == "flac"@ {
        TagSource::Flac
    } else {
        TagSource::Unsupported
    }
}

/// Which tag reader an extension selects: `m4a`, `m4b` and `m4p` select
/// the MP4 reader, `mp3` the ID3 reader and `flac` the FLAC reader, and
/// no other extension selects any (the extension is compared as
/// written, so `MP3` selects none).
pub proof fn lemma_tag_readers(ext: Seq<char>)
    ensures
        (tag_source_spec(ext) is Mp4) <==> (ext == "m4a"@ || ext == "m4b"@ || ext == "m4p"@),
        (tag_source_spec(ext) is Id3) <==> ext == "mp3"@,
        (tag_source_spec(ext) is Flac) <==> ext == "flac"@,
        (tag_source_spec(ext) is Unsupported) <==> !(ext == "m4a"@ || ext == "m4b"@ || ext == "m4p"@
            || ext == "mp3"@ || ext == "flac"@),
{
    reveal_strlit("m4a");
    reveal_strlit("m4b");
    reveal_strlit("m4p");
    reveal_strlit("mp3");
    reveal_strlit("flac");
    assert("mp3"@[1] != "m4a"@[1]);
    assert("mp3"@[1] != "m4b"@[1]);
    assert("mp3"@[1] != "m4p"@[1]);
    assert("flac"@.len() != "m4a"@.len());
    assert("flac"@.len() != "m4b"@.len());
    assert("flac"@.len() != "m4p"@.len());
    assert("flac"@.len() != "mp3"@.len());
}

pub fn tag_source(ext: &str) -> (r: TagSource)
    ensures
        r == tag_source_spec(ext@),
{
    let e = String::from_str(ext);
    if e == String::from_str("m4a") || e == String::from_str("m4b") || e == String::from_str("m4p") {
        TagSource::Mp4
    } else if e == String::from_str("mp3") {
        TagSource::Id3
    } else if e == String::from_str("flac") {
        TagSource::Flac
    } else {
        TagSource::Unsupported
    }
}

/// The text of the MIME type `mime` parses a type as (type and subtype
/// in lower case), or `None` when it does not parse; it depends on the
/// text alone.
pub uninterp spec fn parsed_mime(s: Seq<char>) -> Option<Seq<char>>;

/// `Mime::from_str(s)`, written back as text.
#[verifier::external_body]
fn parse_mime(s: &str) -> (r: Option<String>)
    ensures
        opt_seq(r) == parsed_mime(s@),
{
    s.parse::<mime::Mime>().ok().map(|m| m.to_string())
}

/// Pictures in tags are taken when their type parses as JPEG or PNG.
pub open spec fn picture_accepted_spec(mime: Seq<char>) -> bool {
    parsed_mime(mime) == Some("image/jpeg"@) || parsed_mime(mime) == Some("image/png"@)
}

/// The type of a picture in a tag, as parsed, when the picture is taken.
pub fn picture_accepted(mime: &str) -> (r: Option<String>)
    ensures
        match r {
            Some(m) => picture_accepted_spec(mime@) && parsed_mime(mime@) == Some(m@),
            None => !picture_accepted_spec(mime@),
        },
{
    match parse_mime(mime) {
        Some(m) => if m == String::from_str("image/jpeg") || m == String::from_str("image/png") {
            Some(m)
        } else {
            None
        },
        None => None,
    }
}

/// The type given to a picture file found beside the music: the one
/// `mime_guess` gives the requested path.
pub fn alt_image_mime(path: &str) -> (r: String)
    ensures
        r@ == guessed_mime(path@),
{
    guess_mime(path)
}

/// The picture files tried, in order: each of the names (the album
/// directory's name, if any, then `cover`, `Folder`, `AlbumArtSmall`)
/// with each of the extensions `jpg`, `jpeg`, `png`.
pub open spec fn alt_names_spec(dir_name: Option<Seq<char>>) -> Seq<Seq<char>> {
    let names = match dir_name {
        Some(d) => seq![d, "cover"@, "Folder"@, "AlbumArtSmall"@],
        None => seq!["cover"@, "Folder"@, "AlbumArtSmall"@],
    };
    alt_list(names, names.len())
}

/// Each of the first `n` names with each picture extension.
pub open spec fn alt_list(names: Seq<Seq<char>>, n: nat) -> Seq<Seq<char>> {
    Seq::new(n * 3, |i: int| names[i / 3] + "."@ + seq!["jpg"@, "jpeg"@, "png"@][i % 3])
}

fn push_alt(out: &mut Vec<String>, name: &String)
    ensures
        strings_view(final(out)@) == strings_view(old(out)@) + seq![name@ + "."@ + "jpg"@, name@ + "."@ + "jpeg"@, name@ + "."@ + "png"@],
{
    let ghost before = strings_view(out@);
    let mut a = name.clone();
    a.append(".jpg");
    let mut b = name.clone();
    b.append(".jpeg");
    let mut c = name.clone();
    c.append(".png");
    proof {
        reveal_strlit(".jpg");
        reveal_strlit(".jpeg");
        reveal_strlit(".png");
        reveal_strlit(".");
        reveal_strlit("jpg");
        reveal_strlit("jpeg");
        reveal_strlit("png");
        assert(a@ =~= name@ + "."@ + "jpg"@);
        assert(b@ =~= name@ + "."@ + "jpeg"@);
        assert(c@ =~= name@ + "."@ + "png"@);
    }
    out.push(a);
    out.push(b);
    out.push(c);
    assert(strings_view(out@) =~= before + seq![name@ + "."@ + "jpg"@, name@ + "."@ + "jpeg"@, name@ + "."@ + "png"@]);
}

pub fn alt_image_names(dir_name: &Option<String>) -> (r: Vec<String>)
    ensures
        strings_view(r@) == alt_names_spec(opt_seq(*dir_name)),
{
    let mut names: Vec<String> = Vec::new();
    match dir_name {
        Some(d) => names.push(d.clone()),
        None => {},
    }
    names.push(String::from_str("cover"));
    names.push(String::from_str("Folder"));
    names.push(String::from_str("AlbumArtSmall"));
    let ghost nm = match opt_seq(*dir_name) {
        Some(d) => seq![d, "cover"@, "Folder"@, "AlbumArtSmall"@],
        None => seq!["cover"@, "Folder"@, "AlbumArtSmall"@],
    };
    assert(strings_view(names@) =~= nm);
    let mut out: Vec<String> = Vec::new();
    let mut i: usize = 0;
    while i < names.len()
        invariant
            i <= names@.len(),
            strings_view(names@) == nm,
            strings_view(out@) == alt_list(nm, i as nat),
        decreases names.len() - i,
    {
        assert(strings_view(names@)[i as int] == names@[i as int]@);
        let ghost old_out = strings_view(out@);
        push_alt(&mut out, &names[i]);
        assert(strings_view(out@) =~= alt_list(nm, (i + 1) as nat)) by (nonlinear_arith)
            requires
                strings_view(out@) == old_out + seq![names@[i as int]@ + "."@ + "jpg"@, names@[i as int]@ + "."@ + "jpeg"@, names@[i as int]@ + "."@ + "png"@],
                old_out == alt_list(nm, i as nat),
                nm[i as int] == names@[i as int]@,
        {
        }
        i = i + 1;
    }
    out
}

/// A picture file is used when it is smaller than 256 KiB.
pub fn alt_image_size_ok(len: u64) -> (r: bool)
    ensures
        r == (len < ALBUMART_ALT_IMG_MAXLEN),
{
    len < ALBUMART_ALT_IMG_MAXLEN
}

// ---------------------------------------------------------------------
// The cache of answers

#[verifier::external_type_specification]
#[verifier::external_body]
#[verifier::reject_recursive_types(K)]
#[verifier::reject_recursive_types(V)]
#[verifier::reject_recursive_types(S)]
pub struct ExLruCache<K, V, S>(lru::LruCache<K, V, S>);

#[verifier::external_type_specification]
#[verifier::external_body]
pub struct ExLruDefaultHasher(lru::DefaultHasher);

/// The answers an album art cache holds, by path.
pub uninterp spec fn cache_entries(c: lru::LruCache<String, AlbumartCacheEntry>) -> Map<Seq<char>, AlbumartCacheEntry>;

/// The number of answers the cache was made to hold at most.
pub uninterp spec fn cache_capacity(c: lru::LruCache<String, AlbumartCacheEntry>) -> nat;

/// No answers at all.
pub open spec fn no_entries() -> Map<Seq<char>, AlbumartCacheEntry> {
    Map::empty()
}

/// `LruCache::new(cap)`: an empty cache of capacity `cap`.
#[verifier::external_body]
fn cache_new(cap: usize) -> (r: lru::LruCache<String, AlbumartCacheEntry>)
    ensures
        cache_entries(r) == no_entries(),
        cache_capacity(r) == cap,
{
    lru::LruCache::new(cap)
}

/// `LruCache::get` (the answer handed out as a copy, made by the verified
/// `Clone` of `AlbumartCacheEntry`): the answer kept for
/// the path, if any. It only marks the entry as recently used: the
/// entries and the capacity stay.
#[verifier::external_body]
fn cache_get(c: &mut lru::LruCache<String, AlbumartCacheEntry>, k: &String) -> (r: Option<AlbumartCacheEntry>)
    ensures
        cache_entries(*final(c)) == cache_entries(*old(c)),
        cache_capacity(*final(c)) == cache_capacity(*old(c)),
        match r {
            Some(e) => cache_entries(*old(c)).contains_key(k@) && e == cache_entries(*old(c))[k@],
            None => !cache_entries(*old(c)).contains_key(k@),
        },
{
    c.get(k).cloned()
}

/// `LruCache::put`: the path now maps to the answer (unless the capacity
/// is 0, when nothing changes). A new path in a full cache evicts the least recently used
/// entry, so every other entry either stays as it was or is gone; in a
/// cache that is not full, or for a path it holds, nothing else changes.
#[verifier::external_body]
fn cache_put(c: &mut lru::LruCache<String, AlbumartCacheEntry>, k: String, v: AlbumartCacheEntry)
    ensures
        cache_capacity(*final(c)) == cache_capacity(*old(c)),
        cache_capacity(*old(c)) == 0 ==> cache_entries(*final(c)) == cache_entries(*old(c)),
        cache_capacity(*old(c)) > 0 ==> cache_entries(*final(c)).contains_key(k@) && cache_entries(
            *final(c),
        )[k@] == v,
        forall|x: Seq<char>|
            x != k@ && #[trigger] cache_entries(*final(c)).contains_key(x) ==> cache_entries(
                *old(c),
            ).contains_key(x) && cache_entries(*final(c))[x] == cache_entries(*old(c))[x],
        cache_capacity(*old(c)) > 0 && cache_entries(*old(c)).dom().finite() && (cache_entries(
            *old(c),
        ).contains_key(k@) || cache_entries(*old(c)).len() < cache_capacity(*old(c)))
            ==> cache_entries(*final(c)) == cache_entries(*old(c)).insert(k@, v),
{
    c.put(k, v);
}

/// `Arc::clone`: another pointer to the same value.
#[verifier::external_body]
fn arc_clone(a: &Arc<Vec<u8>>) -> (r: Arc<Vec<u8>>)
    ensures
        r == *a,
{
    Arc::clone(a)
}

fn art_copy(a: &AlbumartResult) -> (r: AlbumartResult)
    ensures
        r == *a,
{
    match a {
        AlbumartResult::BadRequest => AlbumartResult::BadRequest,
        AlbumartResult::NotFound => AlbumartResult::NotFound,
        AlbumartResult::NotFoundNoCache => AlbumartResult::NotFoundNoCache,
        AlbumartResult::Binary(m, t, d) => AlbumartResult::Binary(m.clone(), *t, arc_clone(d)),
    }
}

impl Clone for AlbumartResult {
    /// The same answer (a picture shares its bytes).
    fn clone(&self) -> (r: Self)
        ensures
            r == *self,
    {
        art_copy(self)
    }
}

impl Clone for AlbumartCacheEntry {
    /// The same answer and time.
    fn clone(&self) -> (r: Self)
        ensures
            r == *self,
    {
        AlbumartCacheEntry { art: art_copy(&self.art), stored_nanos: self.stored_nanos }
    }
}

/// The album art service's state: where it looks, and its cache.
pub struct AlbumartContext {
    pub upnp: bool,
    pub localdir: String,
    pub cache: lru::LruCache<String, AlbumartCacheEntry>,
}

/// The answers that are kept in the cache: `NotFound` and pictures.
pub open spec fn kept_answer(a: AlbumartResult) -> bool {
    a is NotFound || a is Binary
}

impl AlbumartContext {
    /// The cache holds only answers that may be kept: never a
    /// `BadRequest` nor a `NotFoundNoCache`.
    pub open spec fn wf(&self) -> bool {
        forall|k: Seq<char>|
            #[trigger] cache_entries(self.cache).contains_key(k) ==> kept_answer(
                cache_entries(self.cache)[k].art,
            )
    }

    pub fn new(upnp: bool, localdir: &str) -> (r: AlbumartContext)
        ensures
            r.wf(),
            r.upnp == upnp,
            r.localdir@ == localdir@,
            cache_entries(r.cache) == Map::<Seq<char>, AlbumartCacheEntry>::empty(),
            cache_capacity(r.cache) == ALBUMART_CACHE_MAX_ENTRY,
    {
        AlbumartContext {
            upnp,
            localdir: String::from_str(localdir),
            cache: cache_new(ALBUMART_CACHE_MAX_ENTRY),
        }
    }
}

/// What a request for album art needs next.
pub enum AlbumartStep {
    /// The answer, at once.
    Answer(AlbumartResult),
    /// Look the picture up for this (checked) path.
    Fetch(String),
}

/// A cached answer is used while it is younger than 15 minutes.
pub open spec fn fresh(e: AlbumartCacheEntry, now_nanos: u64) -> bool {
    (if now_nanos >= e.stored_nanos { now_nanos - e.stored_nanos } else { 0 }) < ALBUMART_CACHE_EXPIRE_NANOS
}

/// A step as a value of the contracts.
pub enum StepView {
    Answer(AlbumartResult),
    Fetch(Seq<char>),
}

impl AlbumartStep {
    pub open spec fn view(&self) -> StepView {
        match *self {
            AlbumartStep::Answer(a) => StepView::Answer(a),
            AlbumartStep::Fetch(p) => StepView::Fetch(p@),
        }
    }
}

/// The first step for a requested path, with the cache holding `m`.
pub open spec fn begin_spec(m: Map<Seq<char>, AlbumartCacheEntry>, path: Seq<char>, now_nanos: u64) -> StepView {
    match resolve_path(strip_slashes(path)) {
        None => StepView::Answer(AlbumartResult::BadRequest),
        Some(p) => if m.contains_key(p) && fresh(m[p], now_nanos) {
            StepView::Answer(m[p].art)
        } else {
            StepView::Fetch(p)
        },
    }
}

/// An answer kept for a path is what a later request for that path
/// gets, while it is younger than 15 minutes: what `albumart_finish`
/// stores, `albumart_begin` gives back.
pub proof fn lemma_kept_answer_returned(
    m: Map<Seq<char>, AlbumartCacheEntry>,
    request: Seq<char>,
    found: AlbumartResult,
    stored: u64,
    now: u64,
)
    requires
        resolve_path(strip_slashes(request)) matches Some(p) && m.contains_key(p) && m[p] == (AlbumartCacheEntry { art: found, stored_nanos: stored }),
        stored <= now,
        now - stored < ALBUMART_CACHE_EXPIRE_NANOS,
    ensures
        begin_spec(m, request, now) == StepView::Answer(found),
{
}

/// The first step of a request: a bad path is answered `BadRequest`; a
/// fresh cached answer is answered at once; otherwise the picture is
/// looked up.
pub fn albumart_begin(ctx: &mut AlbumartContext, path: &str, now_nanos: u64) -> (r: AlbumartStep)
    requires
        old(ctx).wf(),
    ensures
        final(ctx).wf(),
        r@ matches StepView::Answer(a) ==> !(a is NotFoundNoCache) && (a is BadRequest <==> resolve_path(
            strip_slashes(path@),
        ) is None),
        cache_entries(final(ctx).cache) == cache_entries(old(ctx).cache),
        cache_capacity(final(ctx).cache) == cache_capacity(old(ctx).cache),
        final(ctx).upnp == old(ctx).upnp,
        final(ctx).localdir == old(ctx).localdir,
        r@ == begin_spec(cache_entries(old(ctx).cache), path@, now_nanos),
{
    match check_path(path) {
        None => AlbumartStep::Answer(AlbumartResult::BadRequest),
        Some(p) => {
            match cache_get(&mut ctx.cache, &p) {
                Some(e) => {
                    let age = if now_nanos >= e.stored_nanos {
                        now_nanos - e.stored_nanos
                    } else {
                        0
                    };
                    if age < ALBUMART_CACHE_EXPIRE_NANOS {
                        AlbumartStep::Answer(e.art)
                    } else {
                        AlbumartStep::Fetch(p)
                    }
                },
                None => AlbumartStep::Fetch(p),
            }
        },
    }
}

/// Whether the local directory is searched first: when one is set.
pub fn search_localdir(ctx: &AlbumartContext) -> (r: bool)
    ensures
        r == (ctx.localdir@.len() > 0),
{
    ctx.localdir.as_str().unicode_len() > 0
}

/// Whether the media server is asked next: when nothing was found so far
/// and UPnP is on.
pub fn search_upnp(ctx: &AlbumartContext, found: &AlbumartResult) -> (r: bool)
    ensures
        r == (*found is NotFound && ctx.upnp),
{
    match found {
        AlbumartResult::NotFound => ctx.upnp,
        _ => false,
    }
}

/// The last step, with what the search found (the searches answer
/// `NotFound`, `NotFoundNoCache` or a picture, never `BadRequest`):
/// `NotFoundNoCache` is answered `NotFound` and not kept; any other
/// answer is kept for the path (stamped with the time) and given. Every
/// other kept answer stays as it was or, when a new path fills a full
/// cache, the least recently used one is dropped.
pub fn albumart_finish(ctx: &mut AlbumartContext, path: String, found: AlbumartResult, now_nanos: u64) -> (r: AlbumartResult)
    requires
        old(ctx).wf(),
        !(found is BadRequest),
    ensures
        final(ctx).wf(),
        kept_answer(r),
        final(ctx).upnp == old(ctx).upnp,
        final(ctx).localdir == old(ctx).localdir,
        cache_capacity(final(ctx).cache) == cache_capacity(old(ctx).cache),
        match found {
            AlbumartResult::NotFoundNoCache => r is NotFound && cache_entries(final(ctx).cache)
                == cache_entries(old(ctx).cache),
            _ => r == found && (cache_capacity(old(ctx).cache) > 0 ==> cache_entries(
                final(ctx).cache,
            ).contains_key(path@) && cache_entries(final(ctx).cache)[path@] == AlbumartCacheEntry {
                art: found,
                stored_nanos: now_nanos,
            }) && (cache_capacity(old(ctx).cache) == 0 ==> cache_entries(final(ctx).cache)
                == cache_entries(old(ctx).cache)) && (cache_capacity(old(ctx).cache) > 0
                && cache_entries(old(ctx).cache).dom().finite() && (cache_entries(
                old(ctx).cache,
            ).contains_key(path@) || cache_entries(old(ctx).cache).len() < cache_capacity(
                old(ctx).cache,
            )) ==> cache_entries(final(ctx).cache) == cache_entries(old(ctx).cache).insert(
                path@,
                AlbumartCacheEntry { art: found, stored_nanos: now_nanos },
            )),
        },
        forall|x: Seq<char>|
            x != path@ && #[trigger] cache_entries(final(ctx).cache).contains_key(x)
                ==> cache_entries(old(ctx).cache).contains_key(x) && cache_entries(final(ctx).cache)[x]
                == cache_entries(old(ctx).cache)[x],
{
    match found {
        AlbumartResult::NotFoundNoCache => AlbumartResult::NotFound,
        _ => {
            let kept = art_copy(&found);
            cache_put(&mut ctx.cache, path, AlbumartCacheEntry { art: kept, stored_nanos: now_nanos });
            found
        },
    }
}

} // verus!
