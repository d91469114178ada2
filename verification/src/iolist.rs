//! The list of audio inputs and outputs shown to the user: the
//! configured AUX inputs, MPD's outputs (read from the `outputs`
//! response) and the paired or connected Bluetooth audio devices.

use vstd::prelude::*;
use crate::text::{decimal, decimal_string};
use crate::bt::BtDeviceStatus;

verus! {

/// The scheme of a capture (ALSA source) input.
pub const ALSA_SOURCE_PROTO: &'static str = "asource://";

/// The scheme of an MPD output.
pub const MPD_SINK_PROTO: &'static str = "mpdsink://";

/// The scheme of an ALSA sink output.
pub const ALSA_SINK_PROTO: &'static str = "asink://";

/// The path under which MPD's own HTTP stream is relayed.
pub const HIDAMARI_MPD_PROXY_STREAM_PATH: &'static str = "/stream";

/// The kind of an entry.
pub enum IoItemType {
    AuxIn,
    MpdOut,
    BtIn,
    BtOut,
}

/// One entry of the list.
pub struct IoItem {
    pub item_type: IoItemType,
    pub name: String,
    pub url: String,
    pub link: Option<String>,
    pub enable: bool,
}

/// The list as published.
pub struct IoList {
    pub io_list: Vec<IoItem>,
}

/// An entry as a value of the contracts.
pub struct ItemView {
    pub item_type: IoItemType,
    pub name: Seq<char>,
    pub url: Seq<char>,
    pub link: Option<Seq<char>>,
    pub enable: bool,
}

impl IoItem {
    pub open spec fn view(&self) -> ItemView {
        ItemView {
            item_type: self.item_type,
            name: self.name@,
            url: self.url@,
            link: match self.link {
                Some(l) => Some(l@),
                None => None,
            },
            enable: self.enable,
        }
    }
}

pub open spec fn items_view(s: Seq<IoItem>) -> Seq<ItemView> {
    s.map_values(|i: IoItem| i@)
}

// ---------------------------------------------------------------------
// AUX inputs

/// The `n`-th AUX input (counted from 1) at `url`.
pub open spec fn aux_item(n: nat, url: Seq<char>) -> ItemView {
    ItemView {
        item_type: IoItemType::AuxIn,
        name: "AUX IN "@ + decimal(n),
        url,
        link: None,
        enable: true,
    }
}

/// The entries of the AUX inputs, numbered from 1 in order.
pub fn aux_in_items(urls: &Vec<String>) -> (r: Vec<IoItem>)
    requires
        urls@.len() < u64::MAX,
    ensures
        r@.len() == urls@.len(),
        forall|i: int| 0 <= i < urls@.len() ==> (#[trigger] r@[i])@ == aux_item((i + 1) as nat, urls@[i]@),
{
    let mut r: Vec<IoItem> = Vec::new();
    let mut i: usize = 0;
    while i < urls.len()
        invariant
            i <= urls@.len(),
            urls@.len() < u64::MAX,
            r@.len() == i,
            forall|j: int| 0 <= j < i ==> (#[trigger] r@[j])@ == aux_item((j + 1) as nat, urls@[j]@),
        decreases urls.len() - i,
    {
        let mut name = String::from_str("AUX IN ");
        let n = decimal_string((i + 1) as u64);
        name.append(n.as_str());
        r.push(IoItem { item_type: IoItemType::AuxIn, name, url: urls[i].clone(), link: None, enable: true });
        i = i + 1;
    }
    r
}

// ---------------------------------------------------------------------
// MPD outputs

/// What has been read of one output so far, scanning the `outputs`
/// response from its end.
pub struct ScanState {
    pub enabled: Option<bool>,
    pub plugin: Option<Seq<char>>,
    pub name: Option<Seq<char>>,
}

pub open spec fn empty_scan() -> ScanState {
    ScanState { enabled: None, plugin: None, name: None }
}

pub open spec fn or_empty(o: Option<Seq<char>>) -> Seq<char> {
    match o {
        Some(s) => s,
        None => Seq::empty(),
    }
}

/// The entry of the output whose `outputid` field is `id`, from what was
/// read after it.
pub open spec fn output_item(id: Seq<char>, st: ScanState, proxy_stream: bool) -> ItemView {
    ItemView {
        item_type: IoItemType::MpdOut,
        name: or_empty(st.name),
        url: MPD_SINK_PROTO@ + id + "?plugin="@ + or_empty(st.plugin),
        link: if proxy_stream && or_empty(st.plugin) == "httpd"@ {
            Some(HIDAMARI_MPD_PROXY_STREAM_PATH@)
        } else {
            None
        },
        enable: match st.enabled {
            Some(b) => b,
            None => false,
        },
    }
}

/// The outputs listed by the fields `f`, read from the end with `st`
/// already read after them: `outputenabled`, `plugin` and `outputname`
/// are noted, and each `outputid` makes an entry of what was noted and
/// starts afresh. The entries keep the order of their `outputid` fields.
pub open spec fn mpd_outputs(f: Seq<(Seq<char>, Seq<char>)>, st: ScanState, proxy_stream: bool) -> Seq<ItemView>
    decreases f.len(),
{
    if f.len() == 0 {
        Seq::empty()
    } else {
        let (k, v) = f.last();
        let rest = f.drop_last();
        if k == "outputenabled"@ {
            mpd_outputs(rest, ScanState { enabled: Some(v == "1"@), ..st }, proxy_stream)
        } else if k == "plugin"@ {
            mpd_outputs(rest, ScanState { plugin: Some(v), ..st }, proxy_stream)
        } else if k == "outputname"@ {
            mpd_outputs(rest, ScanState { name: Some(v), ..st }, proxy_stream)
        } else if k == "outputid"@ {
            mpd_outputs(rest, empty_scan(), proxy_stream).push(output_item(v, st, proxy_stream))
        } else {
            mpd_outputs(rest, st, proxy_stream)
        }
    }
}

pub open spec fn opt_view(o: Option<String>) -> Option<Seq<char>> {
    match o {
        Some(s) => Some(s@),
        None => None,
    }
}

pub open spec fn fields_view(f: Seq<(String, String)>) -> Seq<(Seq<char>, Seq<char>)> {
    f.map_values(|p: (String, String)| (p.0@, p.1@))
}

fn text_or_empty(o: &Option<String>) -> (r: String)
    ensures
        r@ == or_empty(opt_view(*o)),
{
    match o {
        Some(s) => s.clone(),
        None => String::new(),
    }
}

/// The MPD outputs of the `outputs` response's fields. With the proxy
/// stream configured, an `httpd` output links to it.
pub fn mpd_output_items(flds: &Vec<(String, String)>, proxy_stream: bool) -> (r: Vec<IoItem>)
    ensures
        items_view(r@) == mpd_outputs(fields_view(flds@), empty_scan(), proxy_stream),
{
    let ghost f = fields_view(flds@);
    let mut acc: Vec<IoItem> = Vec::new();
    let mut enabled: Option<bool> = None;
    let mut plugin: Option<String> = None;
    let mut name: Option<String> = None;
    let mut i: usize = flds.len();
    let ghost st0 = empty_scan();
    assert(f.take(i as int) =~= f);
    assert(items_view(acc@) =~= Seq::<ItemView>::empty());
    while i > 0
        invariant
            i <= flds@.len(),
            f == fields_view(flds@),
            mpd_outputs(f, empty_scan(), proxy_stream) == mpd_outputs(
                f.take(i as int),
                ScanState { enabled, plugin: opt_view(plugin), name: opt_view(name) },
                proxy_stream,
            ) + items_view(acc@),
        decreases i,
    {
        let ghost st = ScanState { enabled, plugin: opt_view(plugin), name: opt_view(name) };
        let ghost pre = f.take(i as int);
        let ghost acc_before = items_view(acc@);
        let k = &flds[i - 1].0;
        let v = &flds[i - 1].1;
        assert(pre.last() == (k@, v@));
        assert(pre.drop_last() =~= f.take(i - 1));
        if *k == String::from_str("outputenabled") {
            enabled = Some(*v == String::from_str("1"));
        } else if *k == String::from_str("plugin") {
            plugin = Some(v.clone());
        } else if *k == String::from_str("outputname") {
            name = Some(v.clone());
        } else if *k == String::from_str("outputid") {
            let t_name = text_or_empty(&name);
            let t_plugin = text_or_empty(&plugin);
            let link = if proxy_stream && t_plugin == String::from_str("httpd") {
                Some(String::from_str(HIDAMARI_MPD_PROXY_STREAM_PATH))
            } else {
                None
            };
            let mut url = String::from_str(MPD_SINK_PROTO);
            url.append(v.as_str());
            url.append("?plugin=");
            url.append(t_plugin.as_str());
            let en = match enabled {
                Some(b) => b,
                None => false,
            };
            let item = IoItem { item_type: IoItemType::MpdOut, name: t_name, url, link, enable: en };
            assert(item@ == output_item(v@, st, proxy_stream));
            acc.insert(0, item);
            assert(items_view(acc@) =~= seq![output_item(v@, st, proxy_stream)] + acc_before);
            enabled = None;
            plugin = None;
            name = None;
            assert(mpd_outputs(pre, st, proxy_stream) =~= mpd_outputs(
                f.take(i - 1),
                empty_scan(),
                proxy_stream,
            ).push(output_item(v@, st, proxy_stream)));
            assert(mpd_outputs(pre, st, proxy_stream) + acc_before =~= mpd_outputs(
                f.take(i - 1),
                empty_scan(),
                proxy_stream,
            ) + items_view(acc@));
        }
        i = i - 1;
    }
    acc
}

// ---------------------------------------------------------------------
// Bluetooth devices

/// The ALSA device of a Bluetooth device, by its address.
pub open spec fn bluealsa_device(address: Seq<char>) -> Seq<char> {
    "bluealsa:DEV="@ + address
}

/// The output URL of a connected Bluetooth sink.
pub fn bt_sink_url(device: &BtDeviceStatus) -> (r: String)
    ensures
        r@ == ALSA_SINK_PROTO@ + bluealsa_device(device.address@),
{
    let mut url = String::from_str(ALSA_SINK_PROTO);
    url.append("bluealsa:DEV=");
    url.append(device.address.as_str());
    proof {
        assert(url@ =~= ALSA_SINK_PROTO@ + bluealsa_device(device.address@));
    }
    url
}

/// `alias [address]`.
pub open spec fn device_label(d: BtDeviceStatus) -> Seq<char> {
    d.alias@ + " ["@ + d.address@ + "]"@
}

/// The entries of one Bluetooth device: an input when it is a paired
/// audio source, an output when it is a connected audio sink (enabled as
/// the output task reports for its URL).
pub open spec fn bt_items(d: BtDeviceStatus, sink_enabled: bool) -> Seq<ItemView> {
    let input = if d.audio_source && d.paired {
        seq![
            ItemView {
                item_type: IoItemType::BtIn,
                name: "BT IN "@ + device_label(d),
                url: ALSA_SOURCE_PROTO@ + bluealsa_device(d.address@),
                link: None,
                enable: true,
            },
        ]
    } else {
        Seq::empty()
    };
    let output = if d.audio_sink && d.connected {
        seq![
            ItemView {
                item_type: IoItemType::BtOut,
                name: device_label(d),
                url: ALSA_SINK_PROTO@ + bluealsa_device(d.address@),
                link: None,
                enable: sink_enabled,
            },
        ]
    } else {
        Seq::empty()
    };
    input + output
}

/// A device gets a Bluetooth input entry exactly when it is an audio
/// source and paired, whether or not it is connected; that entry is
/// `BT IN alias [address]` for `asource://bluealsa:DEV=<address>`, always
/// enabled. It gets an output entry exactly when it is an audio sink and
/// connected, for `asink://bluealsa:DEV=<address>`. No device gets two of
/// either.
pub proof fn lemma_bt_entries(d: BtDeviceStatus, sink_enabled: bool)
    ensures
        (exists|i: int| 0 <= i < bt_items(d, sink_enabled).len() && #[trigger] bt_items(d, sink_enabled)[i].item_type is BtIn)
            <==> (d.audio_source && d.paired),
        (exists|i: int| 0 <= i < bt_items(d, sink_enabled).len() && #[trigger] bt_items(d, sink_enabled)[i].item_type is BtOut)
            <==> (d.audio_sink && d.connected),
        forall|i: int|
            0 <= i < bt_items(d, sink_enabled).len() && (#[trigger] bt_items(d, sink_enabled)[i]).item_type is BtIn
                ==> bt_items(d, sink_enabled)[i].name == "BT IN "@ + d.alias@ + " ["@ + d.address@ + "]"@
                && bt_items(d, sink_enabled)[i].url == "asource://bluealsa:DEV="@ + d.address@
                && bt_items(d, sink_enabled)[i].enable,
        forall|i: int|
            0 <= i < bt_items(d, sink_enabled).len() && (#[trigger] bt_items(d, sink_enabled)[i]).item_type is BtOut
                ==> bt_items(d, sink_enabled)[i].url == "asink://bluealsa:DEV="@ + d.address@
                && bt_items(d, sink_enabled)[i].enable == sink_enabled,
        bt_items(d, sink_enabled).len() == (if d.audio_source && d.paired { 1int } else { 0 }) + (
        if d.audio_sink && d.connected { 1int } else { 0 }),
{
    let items = bt_items(d, sink_enabled);
    reveal_strlit("asource://");
    reveal_strlit("asink://");
    reveal_strlit("bluealsa:DEV=");
    reveal_strlit("asource://bluealsa:DEV=");
    reveal_strlit("asink://bluealsa:DEV=");
    assert("asource://"@ + "bluealsa:DEV="@ =~= "asource://bluealsa:DEV="@);
    assert("asink://"@ + "bluealsa:DEV="@ =~= "asink://bluealsa:DEV="@);
    assert(ALSA_SOURCE_PROTO@ + bluealsa_device(d.address@) =~= "asource://bluealsa:DEV="@ + d.address@);
    assert(ALSA_SINK_PROTO@ + bluealsa_device(d.address@) =~= "asink://bluealsa:DEV="@ + d.address@);
    if d.audio_source && d.paired {
        assert(items[0].item_type is BtIn);
    }
    if d.audio_sink && d.connected {
        assert(items[items.len() - 1].item_type is BtOut);
    }
}

fn label(device: &BtDeviceStatus) -> (r: String)
    ensures
        r@ == device_label(*device),
{
    let mut s = device.alias.clone();
    s.append(" [");
    s.append(device.address.as_str());
    s.append("]");
    s
}

pub fn bt_device_items(device: &BtDeviceStatus, sink_enabled: bool) -> (r: Vec<IoItem>)
    ensures
        items_view(r@) == bt_items(*device, sink_enabled),
{
    let mut r: Vec<IoItem> = Vec::new();
    if device.audio_source && device.paired {
        let mut name = String::from_str("BT IN ");
        let l = label(device);
        name.append(l.as_str());
        let mut url = String::from_str(ALSA_SOURCE_PROTO);
        url.append("bluealsa:DEV=");
        url.append(device.address.as_str());
        assert(name@ =~= "BT IN "@ + device_label(*device));
        assert(url@ =~= ALSA_SOURCE_PROTO@ + bluealsa_device(device.address@));
        r.push(IoItem { item_type: IoItemType::BtIn, name, url, link: None, enable: true });
    }
    let ghost first = items_view(r@);
    if device.audio_sink && device.connected {
        let url = bt_sink_url(device);
        let item = IoItem { item_type: IoItemType::BtOut, name: label(device), url, link: None, enable: sink_enabled };
        r.push(item);
        assert(items_view(r@) =~= first.push(item@));
    } else {
        assert(items_view(r@) =~= first);
    }
    assert(items_view(r@) =~= bt_items(*device, sink_enabled));
    r
}

} // verus!
