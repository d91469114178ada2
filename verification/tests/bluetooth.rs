use hidamari::bt::{
    audio_roles, has_uuid, passkey_text, agent_step, AgentStep, BtAgentIOConfirm, BtAgentCapability,
    agent_registration, BtAgentContext, BtAgentContextImpl, BtDeviceStatus, BtAdapterStatus,
    AUDIO_SINK_UUID, AUDIO_SOURCE_UUID, ManagedObject, adapter_paths, device_paths, adapter_of_device,
};
use hidamari::btctrl::{
    cmd_start, cmd_after_adapter, cmd_after_device, cmd_after_op, BtCmdStep, AdapterOp, DeviceOp,
    BtctrlOk, BtctrlErr, make_status, reply_accepted, agent_wait_step, agent_wait_expired,
    BtctrlRepryType, BtctrlRequestType, request_plan, BtRequestPlan, refused, idle_sleep_millis,
    request_passkey_notice, display_passkey_notice, request_confirmation_notice, cancel_notice,
    agent_answer, AgentRequest,
};
use hidamari::sorting::chars_lt;

fn device(alias: &str, address: &str, paired: bool) -> BtDeviceStatus {
    BtDeviceStatus {
        id: format!("/org/bluez/hci0/dev_{}", address),
        adapter: String::from("/org/bluez/hci0"),
        address: String::from(address),
        address_type: String::from("public"),
        alias: String::from(alias),
        appearance: None,
        blocked: false,
        class: None,
        connected: false,
        icon: None,
        legacy_pairing: false,
        modalias: None,
        name: None,
        paired,
        rssi: None,
        services_resolved: false,
        trusted: false,
        tx_power: None,
        uuids: None,
        wake_allowed: None,
        audio_source: false,
        audio_sink: false,
    }
}

fn adapter(alias: &str, address: &str, devices: Option<Vec<BtDeviceStatus>>) -> BtAdapterStatus {
    BtAdapterStatus {
        id: String::from("/org/bluez/hci0"),
        address: String::from(address),
        address_type: String::from("public"),
        alias: String::from(alias),
        class: 0,
        discoverable: false,
        discoverable_timeout: 180,
        discovering: false,
        modalias: None,
        name: String::from(alias),
        pairable: true,
        pairable_timeout: 0,
        powered: true,
        uuids: Vec::new(),
        device_status: devices,
    }
}

fn step_fail(s: BtCmdStep) -> (i32, String) {
    match s {
        BtCmdStep::Done(Err(e)) => (e.err_code, e.err_msg),
        _ => panic!("not a failure"),
    }
}

#[test]
fn audio_roles_from_uuids() {
    let u = Some(vec![String::from(AUDIO_SINK_UUID), String::from("00001108-0000-1000-8000-00805f9b34fb")]);
    assert_eq!(audio_roles(&u), (false, true));
    let u = Some(vec![String::from(AUDIO_SOURCE_UUID)]);
    assert_eq!(audio_roles(&u), (true, false));
    assert_eq!(audio_roles(&None), (false, false));
    assert!(!has_uuid(&Some(Vec::new()), AUDIO_SINK_UUID));
}

#[test]
fn passkeys_are_six_digits() {
    assert_eq!(passkey_text(0), "000000");
    assert_eq!(passkey_text(1234), "001234");
    assert_eq!(passkey_text(999999), "999999");
    assert_eq!(passkey_text(1234567), "1234567");
}

#[test]
fn agent_steps() {
    assert!(matches!(agent_step(false, BtAgentIOConfirm::Accept), AgentStep::Reply(false)));
    assert!(matches!(agent_step(true, BtAgentIOConfirm::Reject), AgentStep::Reply(false)));
    assert!(matches!(agent_step(true, BtAgentIOConfirm::Accept), AgentStep::Reply(true)));
    assert!(matches!(agent_step(true, BtAgentIOConfirm::Confirm), AgentStep::AskUser));
}

#[test]
fn agent_registration_names_capability() {
    let (p, c) = agent_registration(&BtAgentCapability::DisplayYesNo);
    assert_eq!(p, "/net/zuntan/bt");
    assert_eq!(c, "DisplayYesNo");
    assert_eq!(BtAgentCapability::NoInputNoOutput.name(), "NoInputNoOutput");
}

#[test]
fn random_pincode_and_passkey() {
    let mut ctx = BtAgentContextImpl::new();
    for _ in 0..20 {
        let pin = ctx.make_pincode();
        assert_eq!(pin.chars().count(), 4);
        assert!(pin.chars().all(|c| c.is_ascii_digit()));
        let mut v: Vec<char> = pin.chars().collect();
        v.sort();
        v.dedup();
        assert_eq!(v.len(), 4);
        assert!(ctx.make_passkey() <= 999999);
    }
}

struct Fixed;
impl BtAgentContext for Fixed {}

#[test]
fn default_agent_context() {
    let mut f = Fixed;
    assert_eq!(f.make_pincode(), "0000");
    assert_eq!(f.make_passkey(), 0);
}

#[test]
fn command_without_bus_fails() {
    assert_eq!(step_fail(cmd_start(false)), (-1, String::from("BtConn init error")));
    assert!(matches!(cmd_start(true), BtCmdStep::LookupAdapter));
}

#[test]
fn adapter_commands() {
    let c = |s: &str| String::from(s);
    assert!(matches!(cmd_after_adapter(&c("ad_power"), true, Ok(())), BtCmdStep::Adapter(AdapterOp::SetPowered(true))));
    assert!(matches!(cmd_after_adapter(&c("ad_pairable"), false, Ok(())), BtCmdStep::Adapter(AdapterOp::SetPairable(false))));
    assert!(matches!(cmd_after_adapter(&c("ad_discoverable"), true, Ok(())), BtCmdStep::Adapter(AdapterOp::SetDiscoverable(true))));
    assert!(matches!(cmd_after_adapter(&c("ad_discovering"), true, Ok(())), BtCmdStep::Adapter(AdapterOp::StartDiscovery)));
    assert!(matches!(cmd_after_adapter(&c("ad_discovering"), false, Ok(())), BtCmdStep::Adapter(AdapterOp::StopDiscovery)));
    assert!(matches!(cmd_after_adapter(&c("dev_remove"), false, Ok(())), BtCmdStep::Adapter(AdapterOp::RemoveDevice)));
    assert!(matches!(cmd_after_adapter(&c("dev_pair"), false, Ok(())), BtCmdStep::LookupDevice));
    assert_eq!(step_fail(cmd_after_adapter(&c("bogus"), true, Ok(()))), (-8, c("No such command [bogus]")));
    assert_eq!(step_fail(cmd_after_adapter(&c("ad_power"), true, Err(c("Bt adapter not found")))), (-2, c("Bt adapter not found")));
}

#[test]
fn device_commands() {
    let c = |s: &str| String::from(s);
    assert!(matches!(cmd_after_device(&c("dev_connect"), true, Ok(())), BtCmdStep::Device(DeviceOp::Connect)));
    assert!(matches!(cmd_after_device(&c("dev_connect"), false, Ok(())), BtCmdStep::Device(DeviceOp::Disconnect)));
    assert!(matches!(cmd_after_device(&c("dev_pair"), true, Ok(())), BtCmdStep::Device(DeviceOp::Pair)));
    assert_eq!(step_fail(cmd_after_device(&c("dev_pair"), false, Ok(()))), (-7, c("Invarid parameter [false]")));
    assert!(matches!(cmd_after_device(&c("dev_trust"), true, Ok(())), BtCmdStep::Device(DeviceOp::SetTrusted(true))));
    assert!(matches!(cmd_after_device(&c("dev_block"), false, Ok(())), BtCmdStep::Device(DeviceOp::SetBlocked(false))));
    assert_eq!(step_fail(cmd_after_device(&c("dev_trust"), true, Err(c("Bt device not found")))), (-2, c("Bt device not found")));
}

#[test]
fn command_outcome() {
    assert!(cmd_after_op(Ok(())).is_ok());
    match cmd_after_op(Err(String::from("failed"))) {
        Err(e) => {
            assert_eq!(e.err_code, -2);
            assert_eq!(e.err_msg, "failed");
        }
        Ok(_) => panic!("expected an error"),
    }
    let e = BtctrlErr::new(-5, "x");
    assert_eq!((e.err_code, e.err_msg.as_str()), (-5, "x"));
    let _ = BtctrlOk::new();
}

#[test]
fn requests() {
    assert!(matches!(request_plan(&BtctrlRequestType::Shutdown), BtRequestPlan::Stop));
    assert!(matches!(request_plan(&BtctrlRequestType::Nop), BtRequestPlan::Refuse));
    let c = BtctrlRequestType::Cmd(String::from("ad_power"), String::from("a"), String::from("d"), true, None);
    assert!(matches!(request_plan(&c), BtRequestPlan::Command));
    let e = refused();
    assert_eq!(e.err_code, -9);
    assert_eq!(e.err_msg, "");
    assert_eq!(idle_sleep_millis(true), 1000);
    assert_eq!(idle_sleep_millis(false), 3000);
}

#[test]
fn status_is_sorted() {
    let a1 = adapter("zeta", "00:00:00:00:00:02", Some(vec![
        device("Speaker", "AA:00", false),
        device("Phone", "BB:00", true),
        device("Alpha", "CC:00", false),
    ]));
    let a2 = adapter("alpha", "00:00:00:00:00:01", None);
    let st = make_status(true, String::from("2020-01-01T00:00:00+00:00"), vec![a1, a2]);
    assert!(st.enable);
    assert_eq!(st.time, "2020-01-01T00:00:00+00:00");
    let aliases: Vec<&str> = st.adapter.iter().map(|a| a.alias.as_str()).collect();
    assert_eq!(aliases, vec!["alpha", "zeta"]);
    assert!(st.adapter[0].device_status.is_none());
    let devs: Vec<&str> = st.adapter[1].device_status.as_ref().unwrap().iter().map(|d| d.alias.as_str()).collect();
    assert_eq!(devs, vec!["Phone", "Alpha", "Speaker"]);
}

#[test]
fn text_order() {
    let v = |s: &str| s.chars().collect::<Vec<char>>();
    assert!(chars_lt(&v("ab"), &v("b")));
    assert!(chars_lt(&v("a"), &v("ab")));
    assert!(!chars_lt(&v("ab"), &v("ab")));
    assert!(!chars_lt(&v("b"), &v("ab")));
    assert!(chars_lt(&v("Z"), &v("a")));
}

#[test]
fn reply_acceptance() {
    let t = String::from("0123456789abcdef");
    assert!(reply_accepted(&t, &t, 89_999_999_999));
    assert!(!reply_accepted(&t, &t, 90_000_000_000));
    assert!(!reply_accepted(&String::from("x"), &t, 0));
    assert_eq!(agent_wait_step(None, &t, 0), None);
    assert_eq!(agent_wait_step(Some(BtctrlRepryType::Shutdown), &t, 0), Some(false));
    assert_eq!(agent_wait_step(Some(BtctrlRepryType::Reply(t.clone(), true)), &t, 5), Some(true));
    assert_eq!(agent_wait_step(Some(BtctrlRepryType::Reply(t.clone(), false)), &t, 5), Some(false));
    assert_eq!(agent_wait_step(Some(BtctrlRepryType::Reply(String::from("old"), true)), &t, 5), None);
    assert!(!agent_wait_expired(90_000_000_000));
    assert!(agent_wait_expired(90_000_000_001));
}

#[test]
fn notices() {
    let n = request_passkey_notice(device("P", "AA", true), String::from("001234"), String::from("tok"));
    assert_eq!(n.title, "Request Passkey");
    assert_eq!(n.passkey.as_deref(), Some("001234"));
    assert!(n.entered.is_none());
    assert_eq!(n.reply_token, "tok");
    assert!(!n.cancel);
    let n = display_passkey_notice(device("P", "AA", true), String::from("001234"), String::from("000002"));
    assert_eq!(n.title, "Display Passkey");
    assert_eq!(n.entered.as_deref(), Some("000002"));
    assert_eq!(n.reply_token, "");
    let n = request_confirmation_notice(device("P", "AA", true), String::from("123456"), String::from("t2"));
    assert_eq!(n.title, "Request Confirmation");
    let n = cancel_notice(String::from("t3"));
    assert_eq!(n.title, "Cancel");
    assert!(n.cancel);
    assert!(n.device.is_none());
    assert!(matches!(agent_answer(AgentRequest::RequestPinCode), BtAgentIOConfirm::Reject));
    assert!(matches!(agent_answer(AgentRequest::DisplayPinCode), BtAgentIOConfirm::Reject));
    assert!(matches!(agent_answer(AgentRequest::RequestPasskey), BtAgentIOConfirm::Confirm));
    assert!(matches!(agent_answer(AgentRequest::RequestConfirmation), BtAgentIOConfirm::Confirm));
    assert!(matches!(agent_answer(AgentRequest::AuthorizeService), BtAgentIOConfirm::Accept));
}

fn object(path: &str, is_adapter: bool, device_adapter: Option<&str>) -> ManagedObject {
    ManagedObject { path: String::from(path), is_adapter, device_adapter: device_adapter.map(String::from) }
}

fn managed_objects() -> Vec<ManagedObject> {
    vec![
        object("/org/bluez", false, None),
        object("/org/bluez/hci0", true, None),
        object("/org/bluez/hci0/dev_AA", false, Some("/org/bluez/hci0")),
        object("/org/bluez/hci1", true, None),
        object("/org/bluez/hci1/dev_BB", false, Some("/org/bluez/hci1")),
        object("/org/bluez/hci0/dev_CC", false, Some("/org/bluez/hci0")),
        object("/org/bluez/hci0/dev_DD", false, None),
    ]
}

#[test]
fn adapters_among_managed_objects() {
    assert_eq!(adapter_paths(&managed_objects()), vec![String::from("/org/bluez/hci0"), String::from("/org/bluez/hci1")]);
    assert!(adapter_paths(&vec![]).is_empty());
}

#[test]
fn devices_of_an_adapter() {
    let objs = managed_objects();
    assert_eq!(
        device_paths(&objs, &String::from("/org/bluez/hci0")),
        vec![String::from("/org/bluez/hci0/dev_AA"), String::from("/org/bluez/hci0/dev_CC")]
    );
    assert_eq!(device_paths(&objs, &String::from("/org/bluez/hci1")), vec![String::from("/org/bluez/hci1/dev_BB")]);
    assert!(device_paths(&objs, &String::from("/org/bluez/hci2")).is_empty());
}

#[test]
fn adapter_of_a_device() {
    let objs = managed_objects();
    assert_eq!(adapter_of_device(&objs, &String::from("/org/bluez/hci1/dev_BB")), Some(String::from("/org/bluez/hci1")));
    assert_eq!(adapter_of_device(&objs, &String::from("/org/bluez/hci0/dev_DD")), None);
    assert_eq!(adapter_of_device(&objs, &String::from("/org/bluez/hci0")), None);
    assert_eq!(adapter_of_device(&objs, &String::from("/nowhere")), None);
}
