//! The Bluetooth control task's decisions: how a command from the web
//! interface is carried out step by step and answered, how the status
//! list is ordered, what the pairing notices say, and when a user's
//! reply to a notice is taken.

use vstd::prelude::*;
use crate::bt::{BtAdapterStatus, BtDeviceStatus, BtAgentIOConfirm};
use crate::sorting::{Keyed, sorted_by_key, sort_by_key, key_is};

verus! {

broadcast use vstd::seq_lib::group_to_multiset_ensures;

/// The status published to the web clients.
pub struct BtctrlStatusMember {
    pub enable: bool,
    pub time: String,
    pub adapter: Vec<BtAdapterStatus>,
}

/// The status wrapped as the clients expect it (`{"bt_status": ..}`).
pub struct BtctrlStatus<'a> {
    pub bt_status: &'a BtctrlStatusMember,
}

/// A command's success.
pub struct BtctrlOk {}

impl BtctrlOk {
    pub fn new() -> (r: BtctrlOk) {
        BtctrlOk {  }
    }
}

/// A command's failure: a code and a message.
pub struct BtctrlErr {
    pub err_code: i32,
    pub err_msg: String,
}

impl BtctrlErr {
    pub fn new(err_code: i32, err_msg: &str) -> (r: BtctrlErr)
        ensures
            r.err_code == err_code,
            r.err_msg@ == err_msg@,
    {
        BtctrlErr { err_code, err_msg: String::from_str(err_msg) }
    }
}

/// The answer to a request.
pub type BtctrlResult = Result<BtctrlOk, BtctrlErr>;

/// A request to the task: a command (`cmd`, adapter, device, switch,
/// argument), or the order to stop.
pub enum BtctrlRequestType {
    Nop,
    Cmd(String, String, String, bool, Option<String>),
    Shutdown,
}

/// What reaches the pairing agent while it waits for the user: the
/// user's reply to a notice (its token and the answer), or the order to
/// stop waiting.
pub enum BtctrlRepryType {
    Reply(String, bool),
    Shutdown,
}

/// The pairing notice wrapped as the clients expect it
/// (`{"bt_notice": ..}`).
pub struct BtctrlNotice<'a> {
    pub bt_notice: &'a BtctrlNoticeMember,
}

/// A pairing notice shown to the user.
pub struct BtctrlNoticeMember {
    pub title: String,
    pub device: Option<BtDeviceStatus>,
    pub passkey: Option<String>,
    pub entered: Option<String>,
    pub reply_token: String,
    pub cancel: bool,
}

// ---------------------------------------------------------------------
// Requests

/// What the task does with a request.
pub enum BtRequestPlan {
    /// Answer `Ok` and stop.
    Stop,
    /// Carry out the command.
    Command,
    /// Answer with the error `-9`.
    Refuse,
}

pub open spec fn request_plan_spec(req: BtctrlRequestType) -> BtRequestPlan {
    match req {
        BtctrlRequestType::Shutdown => BtRequestPlan::Stop,
        BtctrlRequestType::Cmd(..) => BtRequestPlan::Command,
        BtctrlRequestType::Nop => BtRequestPlan::Refuse,
    }
}

pub fn request_plan(req: &BtctrlRequestType) -> (r: BtRequestPlan)
    ensures
        r == request_plan_spec(*req),
{
    match req {
        BtctrlRequestType::Shutdown => BtRequestPlan::Stop,
        BtctrlRequestType::Cmd(..) => BtRequestPlan::Command,
        BtctrlRequestType::Nop => BtRequestPlan::Refuse,
    }
}

/// The answer to a request that is not a command.
pub fn refused() -> (r: BtctrlErr)
    ensures
        r.err_code == -9,
        r.err_msg@ == Seq::<char>::empty(),
{
    let e = BtctrlErr::new(-9, "");
    proof {
        reveal_strlit("");
    }
    e
}

/// How long the task sleeps when no request came: 1 s while Bluetooth
/// is reachable, 3 s while it is not.
pub fn idle_sleep_millis(enable: bool) -> (r: u64)
    ensures
        r == (if enable { 1000u64 } else { 3000u64 }),
{
    if enable {
        1000
    } else {
        3000
    }
}

// ---------------------------------------------------------------------
// Commands

/// A change made on an adapter.
pub enum AdapterOp {
    SetPowered(bool),
    SetPairable(bool),
    SetDiscoverable(bool),
    StartDiscovery,
    StopDiscovery,
    RemoveDevice,
}

/// A change made on a device.
pub enum DeviceOp {
    Connect,
    Disconnect,
    Pair,
    SetTrusted(bool),
    SetBlocked(bool),
}

/// The next step of a command: look the adapter up, change the adapter,
/// look the device up, change the device, or answer.
pub enum BtCmdStep {
    LookupAdapter,
    Adapter(AdapterOp),
    LookupDevice,
    Device(DeviceOp),
    Done(BtctrlResult),
}

/// A step as a value of the contracts.
pub enum CmdStepView {
    LookupAdapter,
    Adapter(AdapterOp),
    LookupDevice,
    Device(DeviceOp),
    Succeed,
    Fail(i32, Seq<char>),
}

impl BtCmdStep {
    pub open spec fn view(&self) -> CmdStepView {
        match *self {
            BtCmdStep::LookupAdapter => CmdStepView::LookupAdapter,
            BtCmdStep::Adapter(op) => CmdStepView::Adapter(op),
            BtCmdStep::LookupDevice => CmdStepView::LookupDevice,
            BtCmdStep::Device(op) => CmdStepView::Device(op),
            BtCmdStep::Done(Ok(_)) => CmdStepView::Succeed,
            BtCmdStep::Done(Err(e)) => CmdStepView::Fail(e.err_code, e.err_msg@),
        }
    }
}

fn fail(code: i32, msg: String) -> (r: BtCmdStep)
    ensures
        r@ == CmdStepView::Fail(code, msg@),
{
    BtCmdStep::Done(Err(BtctrlErr { err_code: code, err_msg: msg }))
}

/// The first step: without a connection to the system bus every
/// command fails with `-1`.
pub open spec fn cmd_start_spec(connected: bool) -> CmdStepView {
    if connected {
        CmdStepView::LookupAdapter
    } else {
        CmdStepView::Fail(-1i32, "BtConn init error"@)
    }
}

pub fn cmd_start(connected: bool) -> (r: BtCmdStep)
    ensures
        r@ == cmd_start_spec(connected),
{
    if connected {
        BtCmdStep::LookupAdapter
    } else {
        fail(-1, String::from_str("BtConn init error"))
    }
}

/// The step after the adapter lookup: a lookup error fails with `-2`
/// and its message; otherwise the command word decides. An unknown word
/// fails with `-8`.
pub open spec fn cmd_after_adapter_spec(cmd: Seq<char>, sw: bool, lookup: Result<(), Seq<char>>) -> CmdStepView {
    match lookup {
        Err(m) => CmdStepView::Fail(-2i32, m),
        Ok(_) => if cmd == "ad_power"@ {
            CmdStepView::Adapter(AdapterOp::SetPowered(sw))
        } else if cmd == "ad_pairable"@ {
            CmdStepView::Adapter(AdapterOp::SetPairable(sw))
        } else if cmd == "ad_discoverable"@ {
            CmdStepView::Adapter(AdapterOp::SetDiscoverable(sw))
        } else if cmd == "ad_discovering"@ {
            CmdStepView::Adapter(if sw { AdapterOp::StartDiscovery } else { AdapterOp::StopDiscovery })
        } else if cmd == "dev_remove"@ {
            CmdStepView::Adapter(AdapterOp::RemoveDevice)
        } else if cmd == "dev_connect"@ || cmd == "dev_pair"@ || cmd == "dev_trust"@ || cmd
            == "dev_block"@ {
            CmdStepView::LookupDevice
        } else {
            CmdStepView::Fail(-8i32, "No such command ["@ + cmd + "]"@)
        },
    }
}

/// The switch of a request reaches the adapter: `ad_power`,
/// `ad_pairable` and `ad_discoverable` set the property to the switch
/// given, on as well as off, and `ad_discovering` starts discovery when
/// it is on and stops it when it is off. So the two switch values never
/// give the same change.
pub proof fn lemma_adapter_switch_carried(sw: bool)
    ensures
        cmd_after_adapter_spec("ad_power"@, sw, Ok(())) == CmdStepView::Adapter(AdapterOp::SetPowered(sw)),
        cmd_after_adapter_spec("ad_pairable"@, sw, Ok(())) == CmdStepView::Adapter(AdapterOp::SetPairable(sw)),
        cmd_after_adapter_spec("ad_discoverable"@, sw, Ok(())) == CmdStepView::Adapter(
            AdapterOp::SetDiscoverable(sw),
        ),
        cmd_after_adapter_spec("ad_discovering"@, sw, Ok(())) == CmdStepView::Adapter(
            if sw { AdapterOp::StartDiscovery } else { AdapterOp::StopDiscovery },
        ),
        cmd_after_adapter_spec("ad_power"@, sw, Ok(())) != cmd_after_adapter_spec("ad_power"@, !sw, Ok(())),
        cmd_after_adapter_spec("ad_pairable"@, sw, Ok(())) != cmd_after_adapter_spec("ad_pairable"@, !sw, Ok(())),
        cmd_after_adapter_spec("ad_discoverable"@, sw, Ok(())) != cmd_after_adapter_spec(
            "ad_discoverable"@,
            !sw,
            Ok(()),
        ),
        cmd_after_adapter_spec("ad_discovering"@, sw, Ok(())) != cmd_after_adapter_spec(
            "ad_discovering"@,
            !sw,
            Ok(()),
        ),
{
    reveal_strlit("ad_power");
    reveal_strlit("ad_pairable");
    reveal_strlit("ad_discoverable");
    reveal_strlit("ad_discovering");
    assert("ad_pairable"@.len() != "ad_power"@.len());
    assert("ad_discoverable"@.len() != "ad_power"@.len());
    assert("ad_discoverable"@.len() != "ad_pairable"@.len());
    assert("ad_discovering"@.len() != "ad_power"@.len());
    assert("ad_discovering"@.len() != "ad_pairable"@.len());
    assert("ad_discovering"@.len() != "ad_discoverable"@.len());
}

pub open spec fn result_text(r: Result<(), String>) -> Result<(), Seq<char>> {
    match r {
        Ok(_) => Ok(()),
        Err(m) => Err(m@),
    }
}

pub fn cmd_after_adapter(cmd: &String, sw: bool, lookup: Result<(), String>) -> (r: BtCmdStep)
    ensures
        r@ == cmd_after_adapter_spec(cmd@, sw, result_text(lookup)),
{
    match lookup {
        Err(m) => fail(-2, m),
        Ok(_) => {
            if *cmd == String::from_str("ad_power") {
                BtCmdStep::Adapter(AdapterOp::SetPowered(sw))
            } else if *cmd == String::from_str("ad_pairable") {
                BtCmdStep::Adapter(AdapterOp::SetPairable(sw))
            } else if *cmd == String::from_str("ad_discoverable") {
                BtCmdStep::Adapter(AdapterOp::SetDiscoverable(sw))
            } else if *cmd == String::from_str("ad_discovering") {
                BtCmdStep::Adapter(
                    if sw {
                        AdapterOp::StartDiscovery
                    } else {
                        AdapterOp::StopDiscovery
                    },
                )
            } else if *cmd == String::from_str("dev_remove") {
                BtCmdStep::Adapter(AdapterOp::RemoveDevice)
            } else if *cmd == String::from_str("dev_connect") || *cmd == String::from_str(
                "dev_pair",
            ) || *cmd == String::from_str("dev_trust") || *cmd == String::from_str("dev_block") {
                BtCmdStep::LookupDevice
            } else {
                let mut m = String::from_str("No such command [");
                m.append(cmd.as_str());
                m.append("]");
                fail(-8, m)
            }
        },
    }
}

/// The step after the device lookup: a lookup error fails with `-2`;
/// `dev_pair` can only pair (switch off fails with `-7`).
pub open spec fn cmd_after_device_spec(cmd: Seq<char>, sw: bool, lookup: Result<(), Seq<char>>) -> CmdStepView {
    match lookup {
        Err(m) => CmdStepView::Fail(-2i32, m),
        Ok(_) => if cmd == "dev_connect"@ {
            CmdStepView::Device(if sw { DeviceOp::Connect } else { DeviceOp::Disconnect })
        } else if cmd == "dev_pair"@ {
            if sw {
                CmdStepView::Device(DeviceOp::Pair)
            } else {
                CmdStepView::Fail(-7i32, "Invarid parameter [false]"@)
            }
        } else if cmd == "dev_trust"@ {
            CmdStepView::Device(DeviceOp::SetTrusted(sw))
        } else if cmd == "dev_block"@ {
            CmdStepView::Device(DeviceOp::SetBlocked(sw))
        } else {
            CmdStepView::Succeed
        },
    }
}

pub fn cmd_after_device(cmd: &String, sw: bool, lookup: Result<(), String>) -> (r: BtCmdStep)
    ensures
        r@ == cmd_after_device_spec(cmd@, sw, result_text(lookup)),
{
    match lookup {
        Err(m) => fail(-2, m),
        Ok(_) => {
            if *cmd == String::from_str("dev_connect") {
                BtCmdStep::Device(
                    if sw {
                        DeviceOp::Connect
                    } else {
                        DeviceOp::Disconnect
                    },
                )
            } else if *cmd == String::from_str("dev_pair") {
                if sw {
                    BtCmdStep::Device(DeviceOp::Pair)
                } else {
                    fail(-7, String::from_str("Invarid parameter [false]"))
                }
            } else if *cmd == String::from_str("dev_trust") {
                BtCmdStep::Device(DeviceOp::SetTrusted(sw))
            } else if *cmd == String::from_str("dev_block") {
                BtCmdStep::Device(DeviceOp::SetBlocked(sw))
            } else {
                BtCmdStep::Done(Ok(BtctrlOk::new()))
            }
        },
    }
}

/// The answer after the change was made: its error fails with `-2`.
pub fn cmd_after_op(outcome: Result<(), String>) -> (r: BtctrlResult)
    ensures
        match outcome {
            Ok(_) => r is Ok,
            Err(m) => (r matches Err(e) && e.err_code == -2 && e.err_msg@ == m@),
        },
{
    match outcome {
        Ok(_) => Ok(BtctrlOk::new()),
        Err(m) => Err(BtctrlErr { err_code: -2, err_msg: m }),
    }
}

// ---------------------------------------------------------------------
// Status

/// `b` is `a` with its device list (if any) put in order.
pub open spec fn devices_ordered_from(a: BtAdapterStatus, b: BtAdapterStatus) -> bool {
    &&& b.id == a.id
    &&& b.address == a.address
    &&& b.address_type == a.address_type
    &&& b.alias == a.alias
    &&& b.class == a.class
    &&& b.discoverable == a.discoverable
    &&& b.discoverable_timeout == a.discoverable_timeout
    &&& b.discovering == a.discovering
    &&& b.modalias == a.modalias
    &&& b.name == a.name
    &&& b.pairable == a.pairable
    &&& b.pairable_timeout == a.pairable_timeout
    &&& b.powered == a.powered
    &&& b.uuids == a.uuids
    &&& match (a.device_status, b.device_status) {
        (None, None) => true,
        (Some(x), Some(y)) => sorted_by_key(y@) && y@.to_multiset() == x@.to_multiset() && forall|k: Seq<char>|
            #[trigger] y@.filter(key_is(k)) == x@.filter(key_is(k)),
        _ => false,
    }
}

fn order_devices(a: BtAdapterStatus) -> (b: BtAdapterStatus)
    ensures
        devices_ordered_from(a, b),
{
    let mut b = a;
    match b.device_status {
        Some(mut v) => {
            sort_by_key(&mut v);
            b.device_status = Some(v);
        },
        None => {},
    }
    b
}

/// The published status: adapters by alias and address, each adapter's
/// devices paired first, then by alias and address.
pub fn make_status(enable: bool, time: String, adapters: Vec<BtAdapterStatus>) -> (r: BtctrlStatusMember)
    ensures
        r.enable == enable,
        r.time == time,
        sorted_by_key(r.adapter@),
        exists|mid: Seq<BtAdapterStatus>|
            #![trigger mid.to_multiset()]
            mid.len() == adapters@.len() && (forall|i: int|
                0 <= i < mid.len() ==> devices_ordered_from(adapters@[i], #[trigger] mid[i]))
                && r.adapter@.to_multiset() == mid.to_multiset() && forall|k: Seq<char>|
                #[trigger] r.adapter@.filter(key_is(k)) == mid.filter(key_is(k)),
{
    let mut rest = adapters;
    let mut list: Vec<BtAdapterStatus> = Vec::new();
    let ghost orig = rest@;
    while rest.len() > 0
        invariant
            list@.len() + rest@.len() == orig.len(),
            rest@ == orig.skip(list@.len() as int),
            forall|i: int| 0 <= i < list@.len() ==> devices_ordered_from(orig[i], #[trigger] list@[i]),
        decreases rest.len(),
    {
        let ghost before = rest@;
        let a = rest.remove(0);
        let b = order_devices(a);
        list.push(b);
        assert(rest@ =~= orig.skip(list@.len() as int));
    }
    let ghost mid = list@;
    sort_by_key(&mut list);
    BtctrlStatusMember { enable, time, adapter: list }
}

// ---------------------------------------------------------------------
// Pairing notices

/// The notice shown when BlueZ asks for a passkey.
pub fn request_passkey_notice(device: BtDeviceStatus, passkey: String, reply_token: String) -> (r: BtctrlNoticeMember)
    ensures
        r.title@ == "Request Passkey"@,
        r.device == Some(device),
        r.passkey == Some(passkey),
        r.entered is None,
        r.reply_token == reply_token,
        !r.cancel,
{
    BtctrlNoticeMember {
        title: String::from_str("Request Passkey"),
        device: Some(device),
        passkey: Some(passkey),
        entered: None,
        reply_token,
        cancel: false,
    }
}

/// The notice shown while a passkey is typed on the device; it asks no
/// reply, so its token is empty.
pub fn display_passkey_notice(device: BtDeviceStatus, passkey: String, entered: String) -> (r: BtctrlNoticeMember)
    ensures
        r.title@ == "Display Passkey"@,
        r.device == Some(device),
        r.passkey == Some(passkey),
        r.entered == Some(entered),
        r.reply_token@ == Seq::<char>::empty(),
        !r.cancel,
{
    BtctrlNoticeMember {
        title: String::from_str("Display Passkey"),
        device: Some(device),
        passkey: Some(passkey),
        entered: Some(entered),
        reply_token: String::new(),
        cancel: false,
    }
}

/// The notice shown when BlueZ asks to confirm a passkey.
pub fn request_confirmation_notice(device: BtDeviceStatus, passkey: String, reply_token: String) -> (r: BtctrlNoticeMember)
    ensures
        r.title@ == "Request Confirmation"@,
        r.device == Some(device),
        r.passkey == Some(passkey),
        r.entered is None,
        r.reply_token == reply_token,
        !r.cancel,
{
    BtctrlNoticeMember {
        title: String::from_str("Request Confirmation"),
        device: Some(device),
        passkey: Some(passkey),
        entered: None,
        reply_token,
        cancel: false,
    }
}

/// The notice that withdraws the pending one, named by its token.
pub fn cancel_notice(reply_token: String) -> (r: BtctrlNoticeMember)
    ensures
        r.title@ == "Cancel"@,
        r.device is None,
        r.passkey is None,
        r.entered is None,
        r.reply_token == reply_token,
        r.cancel,
{
    BtctrlNoticeMember {
        title: String::from_str("Cancel"),
        device: None,
        passkey: None,
        entered: None,
        reply_token,
        cancel: true,
    }
}

/// The requests BlueZ makes of the pairing agent.
pub enum AgentRequest {
    RequestPinCode,
    DisplayPinCode,
    RequestPasskey,
    RequestConfirmation,
    RequestAuthorization,
    AuthorizeService,
}

/// How this daemon's agent answers: pin codes are refused, passkeys and
/// confirmations go to the user, the rest is accepted.
pub open spec fn agent_answer_spec(req: AgentRequest) -> BtAgentIOConfirm {
    match req {
        AgentRequest::RequestPinCode => BtAgentIOConfirm::Reject,
        AgentRequest::DisplayPinCode => BtAgentIOConfirm::Reject,
        AgentRequest::RequestPasskey => BtAgentIOConfirm::Confirm,
        AgentRequest::RequestConfirmation => BtAgentIOConfirm::Confirm,
        AgentRequest::RequestAuthorization => BtAgentIOConfirm::Accept,
        AgentRequest::AuthorizeService => BtAgentIOConfirm::Accept,
    }
}

pub fn agent_answer(req: AgentRequest) -> (r: BtAgentIOConfirm)
    ensures
        r == agent_answer_spec(req),
{
    match req {
        AgentRequest::RequestPinCode => BtAgentIOConfirm::Reject,
        AgentRequest::DisplayPinCode => BtAgentIOConfirm::Reject,
        AgentRequest::RequestPasskey => BtAgentIOConfirm::Confirm,
        AgentRequest::RequestConfirmation => BtAgentIOConfirm::Confirm,
        AgentRequest::RequestAuthorization => BtAgentIOConfirm::Accept,
        AgentRequest::AuthorizeService => BtAgentIOConfirm::Accept,
    }
}

// ---------------------------------------------------------------------
// The user's reply

/// How long a notice waits for the user: 90 s.
pub const BT_AGENT_IO_OK_TIMEOUT_NANOS: u64 = 90_000_000_000;

/// A reply is taken when it names the current notice and that notice is
/// younger than 90 s.
pub open spec fn reply_accepted_spec(reply_token: Seq<char>, current_token: Seq<char>, token_age_nanos: u64) -> bool {
    reply_token == current_token && token_age_nanos < BT_AGENT_IO_OK_TIMEOUT_NANOS
}

pub fn reply_accepted(reply_token: &String, current_token: &String, token_age_nanos: u64) -> (r: bool)
    ensures
        r == reply_accepted_spec(reply_token@, current_token@, token_age_nanos),
{
    *reply_token == *current_token && token_age_nanos < BT_AGENT_IO_OK_TIMEOUT_NANOS
}

/// What the agent makes of one wait for the user's reply (`None`: the
/// wait timed out): stop with the user's answer, stop with `false` when
/// told to stop, or wait on.
pub open spec fn agent_wait_step_spec(msg: Option<BtctrlRepryType>, current_token: Seq<char>, token_age_nanos: u64) -> Option<bool> {
    match msg {
        None => None,
        Some(BtctrlRepryType::Shutdown) => Some(false),
        Some(BtctrlRepryType::Reply(t, sw)) => if reply_accepted_spec(t@, current_token, token_age_nanos) {
            Some(sw)
        } else {
            None
        },
    }
}

pub fn agent_wait_step(msg: Option<BtctrlRepryType>, current_token: &String, token_age_nanos: u64) -> (r: Option<bool>)
    ensures
        r == agent_wait_step_spec(msg, current_token@, token_age_nanos),
{
    match msg {
        None => None,
        Some(BtctrlRepryType::Shutdown) => Some(false),
        Some(BtctrlRepryType::Reply(t, sw)) => {
            if reply_accepted(&t, current_token, token_age_nanos) {
                Some(sw)
            } else {
                None
            }
        },
    }
}

/// The agent gives up (answering `false`) once it has waited more than
/// 90 s.
pub fn agent_wait_expired(waited_nanos: u64) -> (r: bool)
    ensures
        r == (waited_nanos > BT_AGENT_IO_OK_TIMEOUT_NANOS),
{
    waited_nanos > BT_AGENT_IO_OK_TIMEOUT_NANOS
}

} // verus!
