//! Bluetooth (BlueZ) status records and the pairing agent's own rules:
//! which services make a device an audio source or sink, how passkeys
//! are shown, how pin codes and passkeys are drawn, and how the agent
//! answers BlueZ once the user interface has had its say.

use vstd::prelude::*;
use crate::sorting::Keyed;
use crate::text::{str_chars, string_from_chars, decimal, decimal_string};

verus! {

/// The UUID of the Audio Source service.
pub const AUDIO_SOURCE_UUID: &'static str = "0000110a-0000-1000-8000-00805f9b34fb";

/// The UUID of the Audio Sink service.
pub const AUDIO_SINK_UUID: &'static str = "0000110b-0000-1000-8000-00805f9b34fb";

/// The object path under which the agent is registered.
pub const BLUEZ_AGENT_PATH: &'static str = "/net/zuntan/bt";

/// The pin code handed out when no random source is at hand.
pub const REQUEST_PINCODE: &'static str = "0000";

/// The passkey handed out when no random source is at hand.
pub const REQUEST_PASSKEY: u32 = 0;

/// The properties of one adapter (`org.bluez.Adapter1`), with its
/// devices when they were asked for.
pub struct BtAdapterStatus {
    pub id: String,
    pub address: String,
    pub address_type: String,
    pub alias: String,
    pub class: u32,
    pub discoverable: bool,
    pub discoverable_timeout: u32,
    pub discovering: bool,
    pub modalias: Option<String>,
    pub name: String,
    pub pairable: bool,
    pub pairable_timeout: u32,
    pub powered: bool,
    pub uuids: Vec<String>,
    pub device_status: Option<Vec<BtDeviceStatus>>,
}

/// The properties of one device (`org.bluez.Device1`).
pub struct BtDeviceStatus {
    pub id: String,
    pub adapter: String,
    pub address: String,
    pub address_type: String,
    pub alias: String,
    pub appearance: Option<i16>,
    pub blocked: bool,
    pub class: Option<u32>,
    pub connected: bool,
    pub icon: Option<String>,
    pub legacy_pairing: bool,
    pub modalias: Option<String>,
    pub name: Option<String>,
    pub paired: bool,
    pub rssi: Option<i16>,
    pub services_resolved: bool,
    pub trusted: bool,
    pub tx_power: Option<i16>,
    pub uuids: Option<Vec<String>>,
    pub wake_allowed: Option<bool>,
    pub audio_source: bool,
    pub audio_sink: bool,
}

fn concat_chars(a: &str, b: &str) -> (r: Vec<char>)
    ensures
        r@ == a@ + b@,
{
    let mut v = str_chars(a);
    let mut w = str_chars(b);
    v.append(&mut w);
    v
}

/// Adapters are listed by alias, then address.
impl Keyed for BtAdapterStatus {
    open spec fn sort_key(&self) -> Seq<char> {
        self.alias@ + self.address@
    }

    fn key_chars(&self) -> (r: Vec<char>) {
        concat_chars(self.alias.as_str(), self.address.as_str())
    }
}

/// Paired devices are listed first; then by alias and address.
impl Keyed for BtDeviceStatus {
    open spec fn sort_key(&self) -> Seq<char> {
        seq![if self.paired { 'A' } else { 'B' }] + self.alias@ + self.address@
    }

    fn key_chars(&self) -> (r: Vec<char>) {
        let mut v: Vec<char> = Vec::new();
        v.push(if self.paired { 'A' } else { 'B' });
        let mut rest = concat_chars(self.alias.as_str(), self.address.as_str());
        v.append(&mut rest);
        v
    }
}

/// What the daemon reads of one object that BlueZ manages: its path,
/// whether it has the adapter interface, and, for an object with the
/// device interface, the `Adapter` property when it has one.
pub struct ManagedObject {
    pub path: String,
    pub is_adapter: bool,
    pub device_adapter: Option<String>,
}

pub open spec fn device_adapter_of(o: ManagedObject) -> Option<Seq<char>> {
    match o.device_adapter {
        Some(a) => Some(a@),
        None => None,
    }
}

/// The paths of the adapters, in the order the objects come.
pub open spec fn adapter_paths_of(objs: Seq<ManagedObject>) -> Seq<Seq<char>>
    decreases objs.len(),
{
    if objs.len() == 0 {
        Seq::empty()
    } else {
        let r = adapter_paths_of(objs.drop_last());
        if objs.last().is_adapter {
            r.push(objs.last().path@)
        } else {
            r
        }
    }
}

/// The paths of the devices that belong to `adapter`, in the order the
/// objects come.
pub open spec fn device_paths_of(objs: Seq<ManagedObject>, adapter: Seq<char>) -> Seq<Seq<char>>
    decreases objs.len(),
{
    if objs.len() == 0 {
        Seq::empty()
    } else {
        let r = device_paths_of(objs.drop_last(), adapter);
        if device_adapter_of(objs.last()) == Some(adapter) {
            r.push(objs.last().path@)
        } else {
            r
        }
    }
}

pub open spec fn path_texts(v: Seq<String>) -> Seq<Seq<char>> {
    v.map_values(|x: String| x@)
}

/// The adapters among the managed objects.
pub fn adapter_paths(objs: &Vec<ManagedObject>) -> (r: Vec<String>)
    ensures
        path_texts(r@) == adapter_paths_of(objs@),
{
    let mut r: Vec<String> = Vec::new();
    let mut i: usize = 0;
    while i < objs.len()
        invariant
            i <= objs@.len(),
            path_texts(r@) == adapter_paths_of(objs@.take(i as int)),
        decreases objs.len() - i,
    {
        let ghost before = path_texts(r@);
        assert(objs@.take(i + 1).drop_last() =~= objs@.take(i as int));
        if objs[i].is_adapter {
            r.push(objs[i].path.clone());
            assert(path_texts(r@) =~= before.push(objs@[i as int].path@));
        }
        i = i + 1;
    }
    assert(objs@.take(i as int) =~= objs@);
    r
}

/// The devices of the adapter at `adapter` among the managed objects.
pub fn device_paths(objs: &Vec<ManagedObject>, adapter: &String) -> (r: Vec<String>)
    ensures
        path_texts(r@) == device_paths_of(objs@, adapter@),
{
    let mut r: Vec<String> = Vec::new();
    let mut i: usize = 0;
    while i < objs.len()
        invariant
            i <= objs@.len(),
            path_texts(r@) == device_paths_of(objs@.take(i as int), adapter@),
        decreases objs.len() - i,
    {
        let ghost before = path_texts(r@);
        assert(objs@.take(i + 1).drop_last() =~= objs@.take(i as int));
        let hit = match &objs[i].device_adapter {
            Some(a) => *a == *adapter,
            None => false,
        };
        if hit {
            r.push(objs[i].path.clone());
            assert(path_texts(r@) =~= before.push(objs@[i as int].path@));
        }
        i = i + 1;
    }
    assert(objs@.take(i as int) =~= objs@);
    r
}

/// The adapter of the device at `device`: the `Adapter` property of the
/// (first) object at that path, when that object is a device and has it.
pub open spec fn adapter_of_device_spec(objs: Seq<ManagedObject>, device: Seq<char>) -> Option<Seq<char>>
    decreases objs.len(),
{
    if objs.len() == 0 {
        None
    } else if objs[0].path@ == device {
        device_adapter_of(objs[0])
    } else {
        adapter_of_device_spec(objs.drop_first(), device)
    }
}

/// The adapter a device belongs to.
pub fn adapter_of_device(objs: &Vec<ManagedObject>, device: &String) -> (r: Option<String>)
    ensures
        match r {
            Some(a) => adapter_of_device_spec(objs@, device@) == Some(a@),
            None => adapter_of_device_spec(objs@, device@) is None,
        },
{
    let mut i: usize = 0;
    assert(objs@.skip(0) =~= objs@);
    while i < objs.len()
        invariant
            i <= objs@.len(),
            adapter_of_device_spec(objs@, device@) == adapter_of_device_spec(objs@.skip(i as int), device@),
        decreases objs.len() - i,
    {
        assert(objs@.skip(i as int)[0] == objs@[i as int]);
        if objs[i].path == *device {
            return match &objs[i].device_adapter {
                Some(a) => Some(a.clone()),
                None => None,
            };
        }
        assert(objs@.skip(i as int).drop_first() =~= objs@.skip(i + 1));
        i = i + 1;
    }
    None
}

/// The device lists one of the given service UUIDs.
pub open spec fn lists_uuid(uuids: Option<Vec<String>>, target: Seq<char>) -> bool {
    &&& uuids is Some
    &&& exists|i: int| 0 <= i < uuids->0@.len() && (#[trigger] uuids->0@[i])@ == target
}

/// Whether the device's service list holds `target`.
pub fn has_uuid(uuids: &Option<Vec<String>>, target: &str) -> (r: bool)
    ensures
        r == lists_uuid(*uuids, target@),
{
    if uuids.is_none() {
        return false;
    }
    let u: &Vec<String> = uuids.as_ref().unwrap();
    assert(*uuids == Some(*u));
    let t = String::from_str(target);
    let mut i: usize = 0;
    while i < u.len()
        invariant
            i <= u@.len(),
            t@ == target@,
            *uuids == Some(*u),
            forall|j: int| 0 <= j < i ==> (#[trigger] u@[j])@ != target@,
        decreases u.len() - i,
    {
        if u[i] == t {
            assert(u@[i as int]@ == target@);
            assert(uuids->0@[i as int]@ == target@);
            return true;
        }
        i = i + 1;
    }
    false
}

/// Whether the device offers audio to play (source) and takes audio to
/// play (sink), by its service list.
pub fn audio_roles(uuids: &Option<Vec<String>>) -> (r: (bool, bool))
    ensures
        r.0 == lists_uuid(*uuids, AUDIO_SOURCE_UUID@),
        r.1 == lists_uuid(*uuids, AUDIO_SINK_UUID@),
{
    (has_uuid(uuids, AUDIO_SOURCE_UUID), has_uuid(uuids, AUDIO_SINK_UUID))
}

/// `n` in decimal, padded with zeros to at least `width` digits: what
/// `format!("{:06}", n)` prints for `width` 6.
pub open spec fn zero_padded(n: nat, width: nat) -> Seq<char> {
    let d = decimal(n);
    if d.len() < width {
        Seq::new((width - d.len()) as nat, |i: int| '0') + d
    } else {
        d
    }
}

/// A passkey as the user sees it: six digits, zero-padded.
pub fn passkey_text(n: u32) -> (r: String)
    ensures
        r@ == zero_padded(n as nat, 6),
{
    let d = decimal_string(n as u64);
    let len = d.as_str().unicode_len();
    if len < 6 {
        let mut v: Vec<char> = Vec::new();
        let mut k: usize = 0;
        while k < 6 - len
            invariant
                len < 6,
                k <= 6 - len,
                v@ == Seq::new(k as nat, |i: int| '0'),
            decreases 6 - len - k,
        {
            v.push('0');
            assert(v@ =~= Seq::new((k + 1) as nat, |i: int| '0'));
            k = k + 1;
        }
        let mut w = str_chars(d.as_str());
        v.append(&mut w);
        string_from_chars(v.as_slice())
    } else {
        d
    }
}

/// The IO capability the agent registers with.
pub enum BtAgentCapability {
    DisplayOnly,
    DisplayYesNo,
    KeyboardOnly,
    NoInputNoOutput,
    KeyboardDisplay,
}

/// The capability's name in the `RegisterAgent` call.
pub open spec fn capability_name(c: BtAgentCapability) -> Seq<char> {
    match c {
        BtAgentCapability::DisplayOnly => "DisplayOnly"@,
        BtAgentCapability::DisplayYesNo => "DisplayYesNo"@,
        BtAgentCapability::KeyboardOnly => "KeyboardOnly"@,
        BtAgentCapability::NoInputNoOutput => "NoInputNoOutput"@,
        BtAgentCapability::KeyboardDisplay => "KeyboardDisplay"@,
    }
}

impl BtAgentCapability {
    /// The capability's name, as `String::from` gives it.
    pub fn name(&self) -> (r: String)
        ensures
            r@ == capability_name(*self),
    {
        match self {
            BtAgentCapability::DisplayOnly => String::from_str("DisplayOnly"),
            BtAgentCapability::DisplayYesNo => String::from_str("DisplayYesNo"),
            BtAgentCapability::KeyboardOnly => String::from_str("KeyboardOnly"),
            BtAgentCapability::NoInputNoOutput => String::from_str("NoInputNoOutput"),
            BtAgentCapability::KeyboardDisplay => String::from_str("KeyboardDisplay"),
        }
    }
}

/// The pairing agent's answer to a request from BlueZ.
pub enum BtAgentIOConfirm {
    Reject,
    Accept,
    Confirm,
}

/// What the agent does with a request once it has looked the device up
/// and heard the user interface: reply at once (`true`: with the value,
/// `false`: `org.bluez.Error.Rejected`), or first wait for the user.
pub enum AgentStep {
    Reply(bool),
    AskUser,
}

/// A request about a device that could not be looked up is rejected;
/// otherwise `Reject` and `Accept` answer at once and `Confirm` waits for
/// the user's answer.
pub open spec fn agent_step_spec(device_found: bool, confirm: BtAgentIOConfirm) -> AgentStep {
    if !device_found {
        AgentStep::Reply(false)
    } else {
        match confirm {
            BtAgentIOConfirm::Reject => AgentStep::Reply(false),
            BtAgentIOConfirm::Accept => AgentStep::Reply(true),
            BtAgentIOConfirm::Confirm => AgentStep::AskUser,
        }
    }
}

/// The agent's step for a request (`RequestPinCode`, `DisplayPinCode`,
/// `RequestPasskey`, `RequestConfirmation`, `RequestAuthorization`,
/// `AuthorizeService`).
pub fn agent_step(device_found: bool, confirm: BtAgentIOConfirm) -> (r: AgentStep)
    ensures
        r == agent_step_spec(device_found, confirm),
{
    if !device_found {
        AgentStep::Reply(false)
    } else {
        match confirm {
            BtAgentIOConfirm::Reject => AgentStep::Reply(false),
            BtAgentIOConfirm::Accept => AgentStep::Reply(true),
            BtAgentIOConfirm::Confirm => AgentStep::AskUser,
        }
    }
}

/// The arguments of `RegisterAgent`: the agent's object path and its
/// capability.
pub fn agent_registration(capability: &BtAgentCapability) -> (r: (String, String))
    ensures
        r.0@ == BLUEZ_AGENT_PATH@,
        r.1@ == capability_name(*capability),
{
    (String::from_str(BLUEZ_AGENT_PATH), capability.name())
}

#[verifier::external_type_specification]
#[verifier::external_body]
pub struct ExStdRng(rand::rngs::StdRng);

/// `StdRng::from_rng(thread_rng())`: a generator seeded from the
/// thread's generator. Nothing is promised of it; the seeding cannot
/// fail, as the thread generator fills bytes without error.
#[verifier::external_body]
pub(crate) fn seeded_rng() -> rand::rngs::StdRng {
    <rand::rngs::StdRng as rand::SeedableRng>::from_rng(rand::thread_rng()).unwrap()
}

/// `r` takes items of `src` at distinct indices.
pub open spec fn drawn_without_repetition<T>(r: Seq<T>, src: Seq<T>, idx: Seq<int>) -> bool {
    &&& idx.len() == r.len()
    &&& forall|i: int| 0 <= i < idx.len() ==> 0 <= #[trigger] idx[i] < src.len() && r[i] == src[idx[i]]
    &&& forall|i: int, j: int| 0 <= i < j < idx.len() ==> idx[i] != idx[j]
}

/// `SliceRandom::choose_multiple(src, rng, amount)` collected: `amount`
/// items of `src` (all of them when it holds fewer), drawn at random
/// without repetition, so that each index of `src` is taken at most once.
/// Which items, and in which order, is left to chance.
#[verifier::external_body]
pub(crate) fn choose_multiple<T: Copy>(rng: &mut rand::rngs::StdRng, src: &[T], amount: usize) -> (r: Vec<T>)
    ensures
        r@.len() == (if amount < src@.len() { amount as int } else { src@.len() as int }),
        exists|idx: Seq<int>| drawn_without_repetition(r@, src@, idx),
{
    rand::seq::SliceRandom::choose_multiple(src, rng, amount).cloned().collect()
}

/// `Rng::gen_range(low, high)` for `u32`: a number drawn from
/// `[low, high)`; which one is left to chance.
#[verifier::external_body]
pub(crate) fn gen_range_u32(rng: &mut rand::rngs::StdRng, low: u32, high: u32) -> (r: u32)
    requires
        low < high,
    ensures
        low <= r < high,
{
    rand::Rng::gen_range(rng, low, high)
}

/// No item occurs twice.
pub open spec fn all_distinct<T>(s: Seq<T>) -> bool {
    forall|i: int, j: int| 0 <= i < j < s.len() ==> s[i] != s[j]
}

/// Distinct items drawn without repetition from distinct items are
/// distinct.
pub proof fn lemma_drawn_distinct<T>(r: Seq<T>, src: Seq<T>, idx: Seq<int>)
    requires
        drawn_without_repetition(r, src, idx),
        all_distinct(src),
    ensures
        all_distinct(r),
{
    assert forall|i: int, j: int| 0 <= i < j < r.len() implies r[i] != r[j] by {
        assert(0 <= idx[i] < src.len());
        assert(0 <= idx[j] < src.len());
        if idx[i] < idx[j] {
        } else {
            assert(idx[j] < idx[i]);
        }
    }
}

pub open spec fn is_digit_char(c: char) -> bool {
    '0' <= c && c <= '9'
}

/// A pin code as the agent API asks for: 1 to 16 characters, here made
/// of decimal digits.
pub open spec fn valid_pincode(s: Seq<char>) -> bool {
    &&& 1 <= s.len() <= 16
    &&& forall|i: int| 0 <= i < s.len() ==> is_digit_char(#[trigger] s[i])
}

/// Where the agent's pin codes and passkeys come from.
pub trait BtAgentContext {
    fn make_pincode(&mut self) -> (r: String)
        ensures
            valid_pincode(r@),
    {
        let r = String::from_str(REQUEST_PINCODE);
        proof {
            reveal_strlit("0000");
        }
        r
    }

    /// A passkey, which the agent API bounds by 999999; by default the
    /// fixed `REQUEST_PASSKEY`.
    fn make_passkey(&mut self) -> (r: u32)
        ensures
            r <= 999999,
        default_ensures
            r == REQUEST_PASSKEY,
    {
        REQUEST_PASSKEY
    }
}

/// Pin codes and passkeys drawn at random.
pub struct BtAgentContextImpl {
    rng: rand::rngs::StdRng,
}

impl BtAgentContextImpl {
    pub fn new() -> (r: BtAgentContextImpl) {
        BtAgentContextImpl { rng: seeded_rng() }
    }
}

fn decimal_digits() -> (r: Vec<char>)
    ensures
        r@ == seq!['0', '1', '2', '3', '4', '5', '6', '7', '8', '9'],
{
    vec!['0', '1', '2', '3', '4', '5', '6', '7', '8', '9']
}

impl BtAgentContext for BtAgentContextImpl {
    /// Four distinct decimal digits in random order.
    fn make_pincode(&mut self) -> (r: String)
        ensures
            r@.len() == 4,
            all_distinct(r@),
    {
        let src = decimal_digits();
        let sel = choose_multiple(&mut self.rng, src.as_slice(), 4);
        proof {
            let idx = choose|idx: Seq<int>| drawn_without_repetition(sel@, src@, idx);
            lemma_drawn_distinct(sel@, src@, idx);
            assert forall|i: int| 0 <= i < sel@.len() implies is_digit_char(#[trigger] sel@[i]) by {
                assert(0 <= idx[i] < 10);
            }
        }
        string_from_chars(sel.as_slice())
    }

    /// A passkey drawn from `0..1000000`.
    fn make_passkey(&mut self) -> (r: u32) {
        gen_range_u32(&mut self.rng, 0, 1000000)
    }
}

} // verus!
