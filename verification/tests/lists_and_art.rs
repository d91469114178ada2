use std::sync::Arc;
use hidamari::iolist::{aux_in_items, mpd_output_items, bt_device_items, bt_sink_url, IoItemType};
use hidamari::bt::BtDeviceStatus;
use hidamari::albumart::{
    arg_browse_direct_children, find_in_nodes, find_from_xml, XmlNode, IdType, upnp_request,
    browse_target, walk_art_uri, tag_source, TagSource, picture_accepted, alt_image_names,
    alt_image_size_ok, AlbumartContext, albumart_begin, albumart_finish, AlbumartStep,
    AlbumartResult, search_localdir, search_upnp,
};
use hidamari::mpdfifo::{decode_samples, sample_from_le, excess, window_keep, slide_samples, stall_step, stall_over, StallState, StallAction};
use hidamari::wssession::{next_session_no, frame_action, WsFrame, WsAction, feed_check, notice_check, receives_broadcast, WsSwssionType, spec_broadcast_step, status_broadcast_step};
use hidamari::event::{is_shutdown, EventRequestType};
use hidamari::web::{CmdParam, BtCmdParam, BtReplyParam};
use hidamari::mpdcom::MpdComRequestType;
use hidamari::btctrl::{BtctrlRequestType, BtctrlRepryType};

fn s(x: &str) -> String {
    String::from(x)
}

fn kv(k: &str, v: &str) -> (String, String) {
    (s(k), s(v))
}

fn dev(alias: &str, address: &str, paired: bool, connected: bool, src: bool, sink: bool) -> BtDeviceStatus {
    BtDeviceStatus {
        id: s("/d"),
        adapter: s("/a"),
        address: s(address),
        address_type: s("public"),
        alias: s(alias),
        appearance: None,
        blocked: false,
        class: None,
        connected,
        icon: None,
        legacy_pairing: false,
        modalias: None,
        name: None,
        paired,
        rssi: None,
        services_resolved: false,
        trusted: false,
        tx_power: None,
        uuids: None,
        wake_allowed: None,
        audio_source: src,
        audio_sink: sink,
    }
}

#[test]
fn aux_inputs() {
    let items = aux_in_items(&vec![s("asource://hw:0"), s("asource://hw:1")]);
    assert_eq!(items.len(), 2);
    assert_eq!(items[1].name, "AUX IN 2");
    assert_eq!(items[1].url, "asource://hw:1");
    assert!(items[1].enable);
    assert!(items[1].link.is_none());
    assert!(matches!(items[0].item_type, IoItemType::AuxIn));
}

#[test]
fn mpd_outputs() {
    let f = vec![
        kv("outputid", "0"), kv("outputname", "My ALSA"), kv("plugin", "alsa"), kv("outputenabled", "1"),
        kv("outputid", "1"), kv("outputname", "Stream"), kv("plugin", "httpd"), kv("outputenabled", "0"),
        kv("attribute", "x"),
    ];
    let items = mpd_output_items(&f, true);
    assert_eq!(items.len(), 2);
    assert_eq!(items[0].name, "My ALSA");
    assert_eq!(items[0].url, "mpdsink://0?plugin=alsa");
    assert!(items[0].enable);
    assert!(items[0].link.is_none());
    assert_eq!(items[1].name, "Stream");
    assert_eq!(items[1].url, "mpdsink://1?plugin=httpd");
    assert!(!items[1].enable);
    assert_eq!(items[1].link.as_deref(), Some("/stream"));
    let items = mpd_output_items(&f, false);
    assert!(items[1].link.is_none());
    let items = mpd_output_items(&vec![kv("outputid", "5")], false);
    assert_eq!(items[0].name, "");
    assert_eq!(items[0].url, "mpdsink://5?plugin=");
    assert!(!items[0].enable);
}

#[test]
fn bluetooth_items() {
    let d = dev("Phone", "AA:BB", true, true, true, true);
    let items = bt_device_items(&d, true);
    assert_eq!(items.len(), 2);
    assert!(matches!(items[0].item_type, IoItemType::BtIn));
    assert_eq!(items[0].name, "BT IN Phone [AA:BB]");
    assert_eq!(items[0].url, "asource://bluealsa:DEV=AA:BB");
    assert!(matches!(items[1].item_type, IoItemType::BtOut));
    assert_eq!(items[1].name, "Phone [AA:BB]");
    assert_eq!(items[1].url, "asink://bluealsa:DEV=AA:BB");
    assert!(items[1].enable);
    assert_eq!(bt_sink_url(&d), "asink://bluealsa:DEV=AA:BB");
    let d = dev("Spk", "CC", false, false, true, true);
    assert_eq!(bt_device_items(&d, true).len(), 0);
}

fn node(tag: Option<&str>, text: Option<&str>, parent: Option<usize>, id: Option<&str>) -> XmlNode {
    XmlNode { tag: tag.map(s), text: text.map(s), parent, id: id.map(s) }
}

#[test]
fn browse_results() {
    let nodes = vec![
        node(None, None, None, None),
        node(Some("DIDL-Lite"), None, Some(0), None),
        node(Some("container"), None, Some(1), Some("64$1")),
        node(Some("title"), Some("Music"), Some(2), None),
        node(Some("item"), None, Some(1), Some("64$2")),
        node(Some("title"), Some("Song"), Some(4), None),
        node(Some("albumArtURI"), Some("http://h/a.jpg"), Some(4), None),
    ];
    match find_in_nodes(&nodes, "Music") {
        Some(IdType::Container(id)) => assert_eq!(id, "64$1"),
        _ => panic!("expected a container"),
    }
    match find_in_nodes(&nodes, "Song") {
        Some(IdType::Item(id, uri)) => {
            assert_eq!(id, "64$2");
            assert_eq!(uri, "http://h/a.jpg");
        }
        _ => panic!("expected an item"),
    }
    assert!(find_in_nodes(&nodes, "None").is_none());
}

#[test]
fn browse_xml() {
    let xml = "<DIDL-Lite xmlns:dc=\"http://purl.org/dc/elements/1.1/\" xmlns:upnp=\"urn:schemas-upnp-org:metadata-1-0/upnp/\"><container id=\"1$2\"><dc:title>Albums</dc:title></container><item id=\"1$3\"><dc:title>Track</dc:title><upnp:albumArtURI>http://s/art.jpg</upnp:albumArtURI></item></DIDL-Lite>";
    match find_from_xml(xml, "Albums") {
        Some(IdType::Container(id)) => assert_eq!(id, "1$2"),
        _ => panic!("expected a container"),
    }
    match find_from_xml(xml, "Track") {
        Some(IdType::Item(id, uri)) => {
            assert_eq!(id, "1$3");
            assert_eq!(uri, "http://s/art.jpg");
        }
        _ => panic!("expected an item"),
    }
    assert!(find_from_xml("<a", "x").is_none());
    let a = arg_browse_direct_children("0");
    assert!(a.starts_with("\n<ObjectID>0</ObjectID>\n<BrowseFlag>BrowseDirectChildren</BrowseFlag>"));
    assert!(a.ends_with("<SortCriteria></SortCriteria>\n"));
}

#[test]
fn upnp_walk() {
    assert!(upnp_request("server").is_none());
    let (d, parts) = upnp_request("server/Music/Album").unwrap();
    assert_eq!(d, "server");
    assert_eq!(parts, vec![s("Music"), s("Album")]);
    assert_eq!(browse_target(&Some(IdType::Container(s("0")))), Some(s("0")));
    assert_eq!(browse_target(&Some(IdType::Item(s("1"), s("u")))), None);
    assert_eq!(browse_target(&None), None);
    assert_eq!(walk_art_uri(&Some(IdType::Item(s("1"), s("u")))), Some(s("u")));
    assert_eq!(walk_art_uri(&Some(IdType::Container(s("0")))), None);
}

#[test]
fn local_pictures() {
    assert!(matches!(tag_source("m4b"), TagSource::Mp4));
    assert!(matches!(tag_source("mp3"), TagSource::Id3));
    assert!(matches!(tag_source("flac"), TagSource::Flac));
    assert!(matches!(tag_source("ogg"), TagSource::Unsupported));
    assert_eq!(picture_accepted("image/png"), Some(s("image/png")));
    assert_eq!(picture_accepted("IMAGE/JPEG"), Some(s("image/jpeg")));
    assert_eq!(picture_accepted("image/gif"), None);
    assert_eq!(picture_accepted("not a type"), None);
    assert_eq!(hidamari::albumart::alt_image_mime("a/b.png"), "image/png");
    assert_eq!(hidamari::albumart::alt_image_mime("a/b"), "application/octet-stream");
    let names = alt_image_names(&Some(s("Album")));
    assert_eq!(names.len(), 12);
    assert_eq!(names[0], "Album.jpg");
    assert_eq!(names[1], "Album.jpeg");
    assert_eq!(names[3], "cover.jpg");
    assert_eq!(names[11], "AlbumArtSmall.png");
    assert_eq!(alt_image_names(&None).len(), 9);
    assert!(alt_image_size_ok(262143));
    assert!(!alt_image_size_ok(262144));
}

#[test]
fn art_cache() {
    let mut ctx = AlbumartContext::new(true, "");
    assert!(!search_localdir(&ctx));
    assert!(search_upnp(&ctx, &AlbumartResult::NotFound));
    assert!(!search_upnp(&ctx, &AlbumartResult::BadRequest));
    assert!(matches!(albumart_begin(&mut ctx, "/../x", 0), AlbumartStep::Answer(AlbumartResult::BadRequest)));
    let p = match albumart_begin(&mut ctx, "/A/B/", 0) {
        AlbumartStep::Fetch(p) => p,
        _ => panic!("expected a lookup"),
    };
    assert_eq!(p, "A/B");
    let data = Arc::new(vec![1u8, 2, 3]);
    let r = albumart_finish(&mut ctx, p, AlbumartResult::Binary(s("image/png"), 7, data.clone()), 1_000);
    assert!(matches!(r, AlbumartResult::Binary(..)));
    match albumart_begin(&mut ctx, "A/B", 1_000 + 899_999_999_999) {
        AlbumartStep::Answer(AlbumartResult::Binary(m, t, d)) => {
            assert_eq!(m, "image/png");
            assert_eq!(t, 7);
            assert_eq!(*d, vec![1u8, 2, 3]);
        }
        _ => panic!("expected the kept picture"),
    }
    assert!(matches!(albumart_begin(&mut ctx, "A/B", 1_000 + 900_000_000_000), AlbumartStep::Fetch(_)));
    let r = albumart_finish(&mut ctx, s("C"), AlbumartResult::NotFoundNoCache, 0);
    assert!(matches!(r, AlbumartResult::NotFound));
    assert!(matches!(albumart_begin(&mut ctx, "C", 1), AlbumartStep::Fetch(_)));
    let r = albumart_finish(&mut ctx, s("D"), AlbumartResult::NotFound, 0);
    assert!(matches!(r, AlbumartResult::NotFound));
    assert!(matches!(albumart_begin(&mut ctx, "D", 1), AlbumartStep::Answer(AlbumartResult::NotFound)));
}

#[test]
fn fifo_samples() {
    assert_eq!(sample_from_le(0x34, 0x12), 0x1234);
    assert_eq!(sample_from_le(0xff, 0xff), -1);
    assert_eq!(sample_from_le(0x00, 0x80), -32768);
    assert_eq!(decode_samples(&vec![1, 0, 0xfe, 0xff, 7], 5), vec![1i16, -2]);
    assert_eq!(excess(10, 4), 6);
    assert_eq!(excess(3, 4), 0);
    assert_eq!(window_keep(100), Some(8292));
    assert_eq!(window_keep(usize::MAX), None);
    assert_eq!(slide_samples(), 4096);
}

#[test]
fn fifo_stalls() {
    let st = stall_over();
    let (st, a) = stall_step(&st, 1_000);
    assert!(matches!(a, StallAction::Begin));
    assert_eq!(st.since, Some(1_000));
    let (st, a) = stall_step(&st, 1_000 + 50_000_000);
    assert!(matches!(a, StallAction::Wait));
    let (st, a) = stall_step(&st, 1_000 + 50_000_001);
    assert!(matches!(a, StallAction::ClearSpectrum));
    assert!(st.cleared);
    let (st, a) = stall_step(&st, 1_000 + 60_000_000);
    assert!(matches!(a, StallAction::Wait));
    let (st, a) = stall_step(&st, 1_000 + 1_000_000_001);
    assert!(matches!(a, StallAction::Reopen));
    assert_eq!(st.since, None);
    assert!(!st.cleared);
    let st = StallState { since: Some(5), cleared: false };
    let (_, a) = stall_step(&st, 2_000_000_000);
    assert!(matches!(a, StallAction::ClearSpectrum));
}

#[test]
fn sessions() {
    assert_eq!(next_session_no(0), 1);
    match frame_action(WsFrame::Ping(vec![9, 8])) {
        WsAction::Pong(b) => assert_eq!(b, vec![9, 8]),
        _ => panic!("expected a pong"),
    }
    assert!(matches!(frame_action(WsFrame::Close), WsAction::CloseAndStop));
    assert!(matches!(frame_action(WsFrame::Error), WsAction::Stop));
    assert!(matches!(frame_action(WsFrame::Text(s("hi"))), WsAction::Ignore));
    let mut last = s("a");
    assert!(!feed_check(&mut last, &s("a"), false));
    assert!(feed_check(&mut last, &s("a"), true));
    assert!(feed_check(&mut last, &s("b"), false));
    assert_eq!(last, "b");
    let mut n = String::new();
    assert!(!notice_check(&mut n, &s("")));
    assert!(notice_check(&mut n, &s("{}")));
    assert!(!notice_check(&mut n, &s("{}")));
    assert!(!notice_check(&mut n, &s("")));
    assert_eq!(n, "");
    assert!(receives_broadcast(&WsSwssionType::Default));
    assert!(!receives_broadcast(&WsSwssionType::Special));
    let mut l = s("x");
    assert!(!spec_broadcast_step(&mut l, &s("y"), false));
    assert_eq!(l, "x");
    assert!(spec_broadcast_step(&mut l, &s("y"), true));
    assert_eq!(l, "y");
    let mut ls = s("s0");
    let mut lm = s("m0");
    assert_eq!(status_broadcast_step(&mut ls, &mut lm, &s("s1"), &s("m1"), true), (true, true));
    assert_eq!((ls.as_str(), lm.as_str()), ("s1", "m1"));
    assert!(is_shutdown(&EventRequestType::Shutdown));
    assert!(!is_shutdown(&EventRequestType::Nop));
}

#[test]
fn route_requests() {
    let p = CmdParam { cmd: s(" SetVol  "), arg1: Some(s("30")), arg2: None, arg3: None };
    match p.to_request() {
        MpdComRequestType::Cmd(c) => assert_eq!(c, " setvol 30"),
        _ => panic!("expected a plain command"),
    }
    let p = CmdParam { cmd: s("SetVol  "), arg1: Some(s("30")), arg2: None, arg3: None };
    match p.to_request() {
        MpdComRequestType::SetVol(v) => assert_eq!(v, "30"),
        _ => panic!("expected setvol"),
    }
    let p = CmdParam { cmd: s("ADD"), arg1: Some(s("a b")), arg2: Some(s("  ")), arg3: Some(s("c")) };
    match p.to_request() {
        MpdComRequestType::Cmd(c) => assert_eq!(c, "add \"a b\" c"),
        _ => panic!("expected a command"),
    }
    let p = CmdParam { cmd: s("addurl"), arg1: Some(s("http://x")), arg2: None, arg3: None };
    match p.to_request() {
        MpdComRequestType::AddUrl((u, a)) => {
            assert_eq!(u, "http://x");
            assert_eq!(a, "");
        }
        _ => panic!("expected addurl"),
    }
    let p = CmdParam { cmd: s("setmute"), arg1: None, arg2: None, arg3: None };
    assert!(matches!(p.to_request(), MpdComRequestType::Nop));
    let p = CmdParam { cmd: s("TestSound"), arg1: None, arg2: None, arg3: None };
    assert!(matches!(p.to_request(), MpdComRequestType::TestSound));
    let p = CmdParam { cmd: s("  "), arg1: None, arg2: None, arg3: None };
    assert!(matches!(p.to_request(), MpdComRequestType::Nop));
    let b = BtCmdParam { cmd: s("AD_Power "), aid: s("/org/bluez/hci0"), did: s(""), sw: true, arg: None };
    match b.to_request() {
        BtctrlRequestType::Cmd(c, a, d, sw, arg) => {
            assert_eq!(c, "ad_power");
            assert_eq!(a, "/org/bluez/hci0");
            assert_eq!(d, "");
            assert!(sw);
            assert!(arg.is_none());
        }
        _ => panic!("expected a command"),
    }
    let r = BtReplyParam { reply_token: s("tok"), ok: false };
    match r.to_request() {
        BtctrlRepryType::Reply(t, ok) => {
            assert_eq!(t, "tok");
            assert!(!ok);
        }
        _ => panic!("expected a reply"),
    }
}
