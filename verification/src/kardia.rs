//! Kardia: the kernel heartbeat.
//!
//! The state that outlives the boot, and the service loop. Each wake handles pending
//! reflexes first; a new tick is then serviced once, with its latest value; where
//! there is neither, the loop idles until the next interrupt. [`ServiceLoop`] and
//! [`TickPass`] decide; the caller performs.
use crate::firewall::{
    law_blocklist_precedes_rules, law_newest_rule_decides, law_other_rules_stay_in_force,
    matches_packet, packet_info, Action, Direction, FilterRule, Firewall, FirewallModel,
};
use crate::fm_radio::{
    BootFmHw, FmHwOps, FmModel, FmRadio, FmState, NullFmHw, FM_DEFAULT_FREQ_KHZ,
};
use crate::heorte::{alarm_models, event_models, HeorteManager, HeorteModel};
use crate::heorte_timer::Timer;
use crate::key_manager::SecureKey;
use crate::keypad::Key;
use crate::kinit::BootState;
use crate::security::KEY_SIZE;
use crate::security_mode::SecurityMode;
use vstd::prelude::*;
use vstd::utf8::*;

verus! {

broadcast use vstd::string::group_string_axioms;

/// Timer ticks per wall-clock second.
pub const TICKS_PER_SECOND: u64 = 100;

/// Milliseconds per timer tick.
pub const TICK_MS: u64 = 10;

/// Boot wall-clock epoch: the wall clock until another source sets it.
pub const BOOT_WALL_EPOCH: u64 = 1_735_603_200;

/// Under emulation: serviced ticks before a clean exit.
pub const QEMU_TICK_CAP: u32 = 50;

/// Under emulation: wakes after which a stalled tick counter ends the run.
pub const QEMU_WAKE_CEILING: u32 = 5_000_000;

// ---------------------------------------------------------------------------
// Screens
// ---------------------------------------------------------------------------

/// A screen that navigation can lead to.
#[derive(Clone, Copy, PartialEq, Eq, Structural, Debug)]
pub enum ScreenId {
    Home,
    Messages,
    Search,
    Dialer,
    Settings,
    Calendar,
    FmRadio,
    Privacy,
    RadioControl,
    ThreatMonitor,
    /// A screen that has a number but is not there yet.
    Planned(u8),
}

/// What shows a screen and takes its input.
#[derive(Clone, Copy, PartialEq, Eq, Structural, Debug)]
pub enum ScreenKind {
    Home,
    Messages,
    Search,
    Dialer,
    Settings,
    Calendar,
    FmRadio,
    Privacy,
    RadioControl,
    ThreatMonitor,
    /// The placeholder that names the screen that was asked for.
    NotImplemented,
}

/// What shows a screen and takes its input. Input and rendering both go by this.
pub open spec fn kind_of_screen(id: ScreenId) -> ScreenKind {
    match id {
        ScreenId::Home => ScreenKind::Home,
        ScreenId::Messages => ScreenKind::Messages,
        ScreenId::Search => ScreenKind::Search,
        ScreenId::Dialer => ScreenKind::Dialer,
        ScreenId::Settings => ScreenKind::Settings,
        ScreenId::Calendar => ScreenKind::Calendar,
        ScreenId::FmRadio => ScreenKind::FmRadio,
        ScreenId::Privacy => ScreenKind::Privacy,
        ScreenId::RadioControl => ScreenKind::RadioControl,
        ScreenId::ThreatMonitor => ScreenKind::ThreatMonitor,
        ScreenId::Planned(_) => ScreenKind::NotImplemented,
    }
}

/// What shows a screen and takes its input.
pub fn screen_kind(id: ScreenId) -> (r: ScreenKind)
    ensures
        r == kind_of_screen(id),
{
    match id {
        ScreenId::Home => ScreenKind::Home,
        ScreenId::Messages => ScreenKind::Messages,
        ScreenId::Search => ScreenKind::Search,
        ScreenId::Dialer => ScreenKind::Dialer,
        ScreenId::Settings => ScreenKind::Settings,
        ScreenId::Calendar => ScreenKind::Calendar,
        ScreenId::FmRadio => ScreenKind::FmRadio,
        ScreenId::Privacy => ScreenKind::Privacy,
        ScreenId::RadioControl => ScreenKind::RadioControl,
        ScreenId::ThreatMonitor => ScreenKind::ThreatMonitor,
        ScreenId::Planned(_) => ScreenKind::NotImplemented,
    }
}

/// Law: Home is shown where Home was asked for and nowhere else: a screen that is not
/// there is never shown as Home.
pub proof fn law_only_home_shows_home(id: ScreenId)
    ensures
        kind_of_screen(id) == ScreenKind::Home <==> id == ScreenId::Home,
        kind_of_screen(id) == ScreenKind::NotImplemented <==> id is Planned,
{
}

/// What a key press on a screen asks for.
#[derive(Clone, Copy, PartialEq, Eq, Structural, Debug)]
pub enum ScreenAction {
    /// Stay.
    Stay,
    /// Go to another screen.
    Navigate(ScreenId),
    /// Go back.
    Back,
}

/// The screens that were gone through, the active one last.
pub struct ScreenStack {
    screens: Vec<ScreenId>,
}

impl View for ScreenStack {
    type V = Seq<ScreenId>;

    closed spec fn view(&self) -> Seq<ScreenId> {
        self.screens@
    }
}

/// The screens after an action. Going back from the last screen does nothing.
pub open spec fn navigated(screens: Seq<ScreenId>, action: ScreenAction) -> Seq<ScreenId> {
    match action {
        ScreenAction::Stay => screens,
        ScreenAction::Navigate(id) => screens.push(id),
        ScreenAction::Back => if screens.len() > 1 {
            screens.drop_last()
        } else {
            screens
        },
    }
}

impl ScreenStack {
    /// There is always an active screen.
    pub open spec fn wf(&self) -> bool {
        self@.len() > 0
    }

    /// On the home screen.
    pub fn new() -> (r: Self)
        ensures
            r.wf(),
            r@ == seq![ScreenId::Home],
    {
        let mut screens: Vec<ScreenId> = Vec::new();
        screens.push(ScreenId::Home);
        let r = ScreenStack { screens };
        assert(r@ =~= seq![ScreenId::Home]);
        r
    }

    /// The active screen.
    pub fn active_screen(&self) -> (r: ScreenId)
        requires
            self.wf(),
        ensures
            r == self@.last(),
    {
        self.screens[self.screens.len() - 1]
    }

    /// Do what a key press asked for. Tells the screens before and after where the
    /// active screen changed.
    pub fn apply_action(&mut self, action: ScreenAction) -> (r: Option<(ScreenId, ScreenId)>)
        requires
            old(self).wf(),
        ensures
            final(self).wf(),
            final(self)@ == navigated(old(self)@, action),
            r == (if old(self)@.last() == final(self)@.last() {
                None::<(ScreenId, ScreenId)>
            } else {
                Some((old(self)@.last(), final(self)@.last()))
            }),
    {
        let from = self.active_screen();
        match action {
            ScreenAction::Stay => {},
            ScreenAction::Navigate(id) => {
                self.screens.push(id);
            },
            ScreenAction::Back => {
                if self.screens.len() > 1 {
                    self.screens.pop();
                }
            },
        }
        let to = self.active_screen();
        if from == to {
            None
        } else {
            Some((from, to))
        }
    }
}

/// Law: going to a screen and back leads to where one was.
pub proof fn law_back_undoes_navigation(screens: Seq<ScreenId>, id: ScreenId)
    requires
        screens.len() > 0,
    ensures
        navigated(navigated(screens, ScreenAction::Navigate(id)), ScreenAction::Back) == screens,
{
    assert(screens.push(id).drop_last() =~= screens);
}

/// What a key asks for on a screen: the right soft key leads from the home screen to the
/// search screen, and the end key back.
pub open spec fn action_on(screen: ScreenId, key: Key) -> ScreenAction {
    if key == Key::Rsk && screen == ScreenId::Home {
        ScreenAction::Navigate(ScreenId::Search)
    } else if key == Key::End {
        ScreenAction::Back
    } else {
        ScreenAction::Stay
    }
}

/// What a key asks for on a screen.
pub fn on_key(screen: ScreenId, key: Key) -> (r: ScreenAction)
    ensures
        r == action_on(screen, key),
{
    if key == Key::Rsk && screen == ScreenId::Home {
        ScreenAction::Navigate(ScreenId::Search)
    } else if key == Key::End {
        ScreenAction::Back
    } else {
        ScreenAction::Stay
    }
}

/// The key of the input script with a number, which the emulated keypad presses: to
/// the search screen and back.
pub open spec fn script_key(cursor: int) -> Option<Key> {
    if cursor == 0 {
        Some(Key::Rsk)
    } else if cursor == 1 {
        Some(Key::End)
    } else {
        None
    }
}

/// The key of the input script with a number.
pub fn scripted_key(cursor: usize) -> (r: Option<Key>)
    ensures
        r == script_key(cursor as int),
{
    if cursor == 0 {
        Some(Key::Rsk)
    } else if cursor == 1 {
        Some(Key::End)
    } else {
        None
    }
}

// ---------------------------------------------------------------------------
// Status bar
// ---------------------------------------------------------------------------

/// The generation of a radio access technology.
#[derive(Clone, Copy, PartialEq, Eq, Structural, Debug)]
pub enum RatGeneration {
    TwoG,
    ThreeG,
    FourG,
}

/// The cellular service that the status bar shows.
#[derive(Clone, Copy, PartialEq, Eq, Structural, Debug)]
pub enum NetworkService {
    NoService,
    Edge,
    ThreeG,
    Lte,
}

/// The cellular service of a registration and its radio access technology.
pub open spec fn service_of(registered: bool, rat: Option<RatGeneration>) -> NetworkService {
    if !registered {
        NetworkService::NoService
    } else {
        match rat {
            Some(RatGeneration::TwoG) => NetworkService::Edge,
            Some(RatGeneration::ThreeG) => NetworkService::ThreeG,
            Some(RatGeneration::FourG) => NetworkService::Lte,
            None => NetworkService::Lte,
        }
    }
}

/// The cellular network service shown in the status bar. A registered modem that
/// does not tell its access technology counts as LTE, which is what the device asks
/// for; without a modem or a registration there is no service.
pub fn status_network(registered: bool, rat: Option<RatGeneration>) -> (r: NetworkService)
    ensures
        r == service_of(registered, rat),
{
    if !registered {
        return NetworkService::NoService;
    }
    match rat {
        Some(RatGeneration::TwoG) => NetworkService::Edge,
        Some(RatGeneration::ThreeG) => NetworkService::ThreeG,
        Some(RatGeneration::FourG) => NetworkService::Lte,
        None => NetworkService::Lte,
    }
}

/// How threatening the surroundings are.
#[derive(Clone, Copy, PartialEq, Eq, Structural, Debug)]
pub enum ThreatLevel {
    Low,
    Elevated,
    High,
    Critical,
}

/// Whether the threat indicator is on: only where a detector is online and reports a
/// high level.
pub fn threat_high(detector_online: bool, level: ThreatLevel) -> (r: bool)
    ensures
        r == (detector_online && (level == ThreatLevel::High || level == ThreatLevel::Critical)),
{
    detector_online && (level == ThreatLevel::High || level == ThreatLevel::Critical)
}

/// How many of the first pixels are not blank.
pub open spec fn painted(fb: Seq<u16>, n: int) -> int
    decreases n,
{
    if n <= 0 {
        0
    } else {
        painted(fb, n - 1) + if fb[n - 1] != 0 {
            1int
        } else {
            0
        }
    }
}

/// The number of painted (non-blank) pixels of a frame.
pub fn painted_pixels(fb: &[u16]) -> (r: usize)
    ensures
        r == painted(fb@, fb@.len() as int),
        r <= fb@.len(),
{
    let mut n: usize = 0;
    let mut i: usize = 0;
    while i < fb.len()
        invariant
            i <= fb@.len(),
            n <= i,
            n == painted(fb@, i as int),
        decreases fb@.len() - i,
    {
        if fb[i] != 0 {
            n += 1;
        }
        i += 1;
    }
    n
}

// ---------------------------------------------------------------------------
// Kernel state
// ---------------------------------------------------------------------------

/// The state that the service loop owns. Nothing in it is touched by an interrupt
/// handler.
pub struct KernelState {
    /// What came up during the boot.
    pub boot: BootState,
    /// Security mode.
    pub mode: SecurityMode,
    /// Navigation.
    pub screens: ScreenStack,
    /// FM radio controller.
    pub fm: FmRadio<BootFmHw>,
    /// Calendar, alarms, timer and stopwatch.
    pub heorte: HeorteManager,
    /// The one firewall of the network stack.
    pub firewall: Firewall,
    /// The key of the audit chain of this boot. All zero where no random bytes were to be
    /// had: the chain then takes no entry.
    pub audit_key: SecureKey<KEY_SIZE>,
    /// Last computed wall-clock epoch (seconds).
    pub wall_clock: u64,
    /// Last whole second observed.
    pub last_second: u64,
    /// The next key of the input script.
    pub input_cursor: usize,
}

/// What a frame shows.
#[derive(Clone, Copy, PartialEq, Eq, Structural, Debug)]
pub struct Frame {
    /// What is drawn.
    pub screen: ScreenKind,
    /// The screen that was asked for, which the placeholder names.
    pub requested: ScreenId,
    /// The cellular service of the status bar.
    pub network: NetworkService,
    /// Whether the threat indicator is on.
    pub threat_high: bool,
    /// The security mode of the badge.
    pub mode: SecurityMode,
    /// The wall-clock time of the home screen.
    pub epoch_secs: u64,
}

/// What a poll of the subsystems found.
#[derive(Debug)]
pub struct PollOutcome {
    /// The active screen should be rendered again.
    pub dirty: bool,
    /// A ringtone session is to be opened.
    pub ring: bool,
    /// The alarms that ring.
    pub alarms: Vec<u32>,
    /// The countdown timer has expired.
    pub timer_expired: bool,
}

impl KernelState {
    /// The invariants of the parts.
    pub open spec fn wf(&self) -> bool {
        &&& self.screens.wf()
        &&& self.fm@.wf()
        &&& self.heorte.wf()
    }

    /// The state at the handover from the boot.
    pub fn new(
        boot: BootState,
        mode: SecurityMode,
        firewall: Firewall,
        audit_key: [u8; KEY_SIZE],
    ) -> (r: Self)
        ensures
            r.wf(),
            r.boot == boot,
            r.mode == mode,
            r.screens@ == seq![ScreenId::Home],
            r.fm@ == FmModel::fresh(
                (NullFmHw { powered: false, current_freq: FM_DEFAULT_FREQ_KHZ }),
            ),
            r.heorte@ == HeorteModel::fresh(),
            r.firewall@ == firewall@,
            r.audit_key@ == audit_key@,
            r.wall_clock == BOOT_WALL_EPOCH,
            r.last_second == 0,
            r.input_cursor == 0,
    {
        KernelState {
            boot,
            mode,
            screens: ScreenStack::new(),
            fm: FmRadio::new(BootFmHw::new()),
            heorte: HeorteManager::new(),
            firewall,
            audit_key: SecureKey::new(audit_key),
            wall_clock: BOOT_WALL_EPOCH,
            last_second: 0,
            input_cursor: 0,
        }
    }

    /// Whether the path to the modem came up during the boot, which the threat monitor
    /// shows.
    pub fn modem_path_available(&self) -> (r: bool)
        ensures
            r == self.boot.radio.modem_ok,
    {
        self.boot.radio.modem_ok
    }

    /// Poll every subsystem once for tick `now`, given whether the modem reported an
    /// incoming call and the wall-clock time at this tick. Once per second the wall
    /// clock is taken over, the alarms are checked and the countdown advances. No
    /// step blocks.
    pub fn poll_all(&mut self, now: u64, incoming_call: bool, wall: u64) -> (r: PollOutcome)
        requires
            old(self).wf(),
            now * TICK_MS <= u64::MAX,
        ensures
            final(self).wf(),
            r.ring == incoming_call,
            r.dirty == (now / TICKS_PER_SECOND != old(self).last_second),
            *final(self) == (KernelState {
                heorte: final(self).heorte,
                wall_clock: final(self).wall_clock,
                last_second: final(self).last_second,
                ..*old(self)
            }),
            r.dirty ==> ({
                let (timer, expired) = old(self).heorte@.timer.updated((now * TICK_MS) as u64);
                &&& final(self).last_second == now / TICKS_PER_SECOND
                &&& final(self).wall_clock == wall
                &&& r.alarms@ == old(self).heorte@.ringing(wall)
                &&& r.timer_expired == expired
                &&& final(self).heorte@ == (HeorteModel {
                    timer,
                    ..old(self).heorte@.checked_at(wall)
                })
            }),
            !r.dirty ==> *final(self) == *old(self) && r.alarms@ == Seq::<u32>::empty()
                && !r.timer_expired,
    {
        let now_ms: u64 = now * TICK_MS;
        let second: u64 = now / TICKS_PER_SECOND;
        if second == self.last_second {
            return PollOutcome {
                dirty: false,
                ring: incoming_call,
                alarms: Vec::new(),
                timer_expired: false,
            };
        }
        self.last_second = second;
        self.wall_clock = wall;
        let alarms = self.heorte.check_alarms(wall);
        let timer = self.heorte.timer_mut();
        let timer_expired: bool = timer.update(now_ms);
        PollOutcome { dirty: true, ring: incoming_call, alarms, timer_expired }
    }

    /// The key of the next round of input: under emulation the next one of the script, on
    /// the device none.
    pub open spec fn next_key(self, emulated: bool) -> Option<Key> {
        if emulated {
            script_key(self.input_cursor as int)
        } else {
            None
        }
    }

    /// The screens after one round of input: the key goes to the active screen.
    pub open spec fn screens_after_input(self, emulated: bool) -> Seq<ScreenId> {
        match self.next_key(emulated) {
            Some(key) => navigated(self.screens@, action_on(self.screens@.last(), key)),
            None => self.screens@,
        }
    }

    /// One round of input. Under emulation the next key of the script goes to the active
    /// screen; on the device there is no input yet. Tells the screens before and after
    /// where navigation changed the active screen.
    pub fn poll_input(&mut self, emulated: bool) -> (r: Option<(ScreenId, ScreenId)>)
        requires
            old(self).wf(),
        ensures
            final(self).wf(),
            final(self).screens@ == old(self).screens_after_input(emulated),
            final(self).input_cursor == (if old(self).next_key(emulated) is Some {
                old(self).input_cursor + 1
            } else {
                old(self).input_cursor as int
            }),
            r == (if old(self).screens@.last() == final(self).screens@.last() {
                None::<(ScreenId, ScreenId)>
            } else {
                Some((old(self).screens@.last(), final(self).screens@.last()))
            }),
            *final(self) == (KernelState {
                screens: final(self).screens,
                input_cursor: final(self).input_cursor,
                ..*old(self)
            }),
            !emulated ==> *final(self) == *old(self) && r is None,
    {
        if !emulated {
            return None;
        }
        let key = match scripted_key(self.input_cursor) {
            Some(key) => key,
            None => {
                return None;
            },
        };
        self.input_cursor = self.input_cursor + 1;
        let action = on_key(self.screens.active_screen(), key);
        self.screens.apply_action(action)
    }

    /// What the next frame shows.
    pub open spec fn shown(
        self,
        registered: bool,
        rat: Option<RatGeneration>,
        detector_online: bool,
        level: ThreatLevel,
    ) -> Frame {
        Frame {
            screen: kind_of_screen(self.screens@.last()),
            requested: self.screens@.last(),
            network: service_of(registered, rat),
            threat_high: detector_online && (level == ThreatLevel::High || level
                == ThreatLevel::Critical),
            mode: self.mode,
            epoch_secs: self.wall_clock,
        }
    }

    /// What the next frame shows, given the registration of the modem, its radio
    /// access technology and the threat detector.
    pub fn frame(
        &self,
        registered: bool,
        rat: Option<RatGeneration>,
        detector_online: bool,
        level: ThreatLevel,
    ) -> (r: Frame)
        requires
            self.wf(),
        ensures
            r == self.shown(registered, rat, detector_online, level),
    {
        let requested = self.screens.active_screen();
        Frame {
            screen: screen_kind(requested),
            requested,
            network: status_network(registered, rat),
            threat_high: threat_high(detector_online, level),
            mode: self.mode,
            epoch_secs: self.wall_clock,
        }
    }

    /// Install the baseline firewall policy: outbound DNS traffic is logged. Returns
    /// the resulting rule count.
    ///
    /// `Log` allows and audits, so such a rule is permitted only on flows that the
    /// default policy already allows, which are the outbound ones.
    pub fn apply_firewall_policy(&mut self) -> (r: usize)
        requires
            old(self).wf(),
        ensures
            final(self).wf(),
            final(self).firewall@ == with_baseline_policy(old(self).firewall@),
            r == old(self).firewall@.rules.len() + 1,
            *final(self) == (KernelState { firewall: final(self).firewall, ..*old(self) }),
    {
        self.firewall.add_rule(
            FilterRule {
                direction: Direction::Outbound,
                protocol: None,
                src_addr: None,
                dst_addr: None,
                dst_port: Some(53),
                action: Action::Log,
            },
        );
        self.firewall.rule_count()
    }
}

/// The baseline rule: outbound traffic to the DNS port is allowed and audited.
pub open spec fn baseline_rule() -> FilterRule {
    FilterRule {
        direction: Direction::Outbound,
        protocol: None,
        src_addr: None,
        dst_addr: None,
        dst_port: Some(53),
        action: Action::Log,
    }
}

/// A firewall with the baseline policy.
pub open spec fn with_baseline_policy(fw: FirewallModel) -> FirewallModel {
    FirewallModel { rules: seq![baseline_rule()] + fw.rules, ..fw }
}

/// Law: the baseline policy changes nothing for inbound packets: what was denied
/// stays denied.
pub proof fn law_policy_leaves_inbound_alone(fw: FirewallModel, packet: Seq<u8>)
    ensures
        with_baseline_policy(fw).verdict(packet, Direction::Inbound) == fw.verdict(
            packet,
            Direction::Inbound,
        ),
{
    law_other_rules_stay_in_force(fw, baseline_rule(), packet, Direction::Inbound);
}

/// Law: the baseline policy cannot bypass the DNS blocklist: a query for a blocked
/// domain is denied with it as without it.
pub proof fn law_policy_respects_the_blocklist(fw: FirewallModel, packet: Seq<u8>)
    requires
        fw.blocks_query(packet, Direction::Outbound),
    ensures
        with_baseline_policy(fw).verdict(packet, Direction::Outbound) == Action::Deny,
{
    law_blocklist_precedes_rules(
        fw,
        seq![baseline_rule()] + fw.rules,
        packet,
        Direction::Outbound,
    );
}

/// Law: with the baseline policy every readable outbound packet to the DNS port that
/// asks for no blocked domain is audited, and every other outbound packet is judged
/// as before.
pub proof fn law_policy_audits_dns(fw: FirewallModel, packet: Seq<u8>)
    ensures
        packet_info(packet) matches Some(info) ==> (if !fw.blocks_query(packet, Direction::Outbound) && matches_packet(
            baseline_rule(),
            Direction::Outbound,
            info,
        ) {
            with_baseline_policy(fw).verdict(packet, Direction::Outbound) == Action::Log
        } else {
            fw.blocks_query(packet, Direction::Outbound) || with_baseline_policy(fw).verdict(packet, Direction::Outbound)
                == fw.verdict(packet, Direction::Outbound)
        }),
{
    if let Some(info) = packet_info(packet) {
        if !fw.blocks_query(packet, Direction::Outbound) {
            if matches_packet(baseline_rule(), Direction::Outbound, info) {
                law_newest_rule_decides(fw, baseline_rule(), packet, Direction::Outbound);
            } else {
                law_other_rules_stay_in_force(fw, baseline_rule(), packet, Direction::Outbound);
            }
        }
    }
}

// ---------------------------------------------------------------------------
// Reflexes
// ---------------------------------------------------------------------------

/// The events that interrupt handlers have raised.
#[derive(Clone, Copy, PartialEq, Eq, Structural, Debug)]
pub struct Pending {
    pub panic_wipe: bool,
    pub duress: bool,
    pub incoming_ring: bool,
}

impl Pending {
    /// Whether anything was raised.
    pub open spec fn is_any(self) -> bool {
        self.panic_wipe || self.duress || self.incoming_ring
    }

    /// Whether anything was raised.
    pub fn any(&self) -> (r: bool)
        ensures
            r == self.is_any(),
    {
        self.panic_wipe || self.duress || self.incoming_ring
    }
}

/// What is reported for raised events: the most urgent first.
pub open spec fn reflex_reports(pending: Pending) -> Seq<Seq<char>> {
    let a = if pending.panic_wipe {
        seq!["[kardia] REFLEX panic-wipe\r\n"@]
    } else {
        Seq::empty()
    };
    let b = if pending.duress {
        a.push("[kardia] REFLEX duress\r\n"@)
    } else {
        a
    };
    if pending.incoming_ring {
        b.push("[kardia] REFLEX incoming-ring\r\n"@)
    } else {
        b
    }
}

/// Handle pending reflex events: the lines to report, the most urgent first.
pub fn handle_reflex(pending: Pending) -> (r: Vec<&'static str>)
    ensures
        r@.map_values(|s: &'static str| s@) == reflex_reports(pending),
{
    let ghost text = |s: &'static str| s@;
    let mut out: Vec<&'static str> = Vec::new();
    assert(out@.map_values(text) =~= Seq::<Seq<char>>::empty());
    if pending.panic_wipe {
        out.push("[kardia] REFLEX panic-wipe\r\n");
        assert(out@.map_values(text) =~= seq!["[kardia] REFLEX panic-wipe\r\n"@]);
    }
    let ghost a = out@;
    if pending.duress {
        out.push("[kardia] REFLEX duress\r\n");
        assert(out@.map_values(text) =~= a.map_values(text).push("[kardia] REFLEX duress\r\n"@));
    }
    let ghost b = out@;
    if pending.incoming_ring {
        out.push("[kardia] REFLEX incoming-ring\r\n");
        assert(out@.map_values(text) =~= b.map_values(text).push(
            "[kardia] REFLEX incoming-ring\r\n"@,
        ));
    }
    out
}

// ---------------------------------------------------------------------------
// Service loop
// ---------------------------------------------------------------------------

/// What the service loop does in a wake.
#[derive(Clone, Copy, PartialEq, Eq, Structural, Debug)]
pub enum LoopAction {
    /// Handle the pending reflexes, then wake again.
    HandleReflex,
    /// Service a tick.
    Service(u64),
    /// Idle until the next interrupt.
    Idle,
    /// End the run under emulation, with an exit code.
    Exit(u32),
}

/// The service loop.
#[derive(Clone, Copy, PartialEq, Eq, Structural, Debug)]
pub struct ServiceLoop {
    /// The tick that was serviced last.
    pub last_tick: u64,
    /// Whether the run is bounded, as under emulation.
    pub bounded: bool,
    /// Ticks serviced in a bounded run.
    pub serviced: u32,
    /// Wakes in a bounded run.
    pub wakes: u32,
}

impl ServiceLoop {
    /// A bounded run has not reached its bounds.
    pub open spec fn wf(self) -> bool {
        self.bounded ==> self.wakes < QEMU_WAKE_CEILING && self.serviced < QEMU_TICK_CAP
    }

    /// The loop after a wake, and what it does. Reflexes go before ticks; a bounded
    /// run that only ever wakes is ended.
    pub open spec fn woken(self, reflex: bool, now: u64) -> (ServiceLoop, LoopAction) {
        let counted = if self.bounded {
            ServiceLoop { wakes: (self.wakes + 1) as u32, ..self }
        } else {
            self
        };
        if counted.bounded && counted.wakes >= QEMU_WAKE_CEILING {
            (counted, LoopAction::Exit(5))
        } else if reflex {
            (counted, LoopAction::HandleReflex)
        } else if now != self.last_tick {
            (ServiceLoop { last_tick: now, ..counted }, LoopAction::Service(now))
        } else {
            (counted, LoopAction::Idle)
        }
    }

    /// The loop after a tick was serviced, and whether a bounded run is over.
    pub open spec fn after_service(self) -> (ServiceLoop, Option<LoopAction>) {
        if self.bounded {
            let counted = ServiceLoop { serviced: (self.serviced + 1) as u32, ..self };
            if counted.serviced >= QEMU_TICK_CAP {
                (counted, Some(LoopAction::Exit(0)))
            } else {
                (counted, None)
            }
        } else {
            (self, None)
        }
    }

    /// Enter the loop at a tick.
    pub fn new(tick: u64, bounded: bool) -> (r: Self)
        ensures
            r.wf(),
            r == (ServiceLoop { last_tick: tick, bounded, serviced: 0, wakes: 0 }),
    {
        ServiceLoop { last_tick: tick, bounded, serviced: 0, wakes: 0 }
    }

    /// Wake: decide what is done, given whether reflexes are pending and the tick.
    pub fn wake(&mut self, reflex: bool, now: u64) -> (r: LoopAction)
        requires
            old(self).wf(),
        ensures
            (*final(self), r) == old(self).woken(reflex, now),
            !(r is Exit) ==> final(self).wf(),
    {
        if self.bounded {
            self.wakes = self.wakes + 1;
            if self.wakes >= QEMU_WAKE_CEILING {
                return LoopAction::Exit(5);
            }
        }
        if reflex {
            return LoopAction::HandleReflex;
        }
        if now != self.last_tick {
            self.last_tick = now;
            return LoopAction::Service(now);
        }
        LoopAction::Idle
    }

    /// Take note that a tick was serviced. Tells where a bounded run is over.
    pub fn finish_tick(&mut self) -> (r: Option<LoopAction>)
        requires
            old(self).wf(),
        ensures
            (*final(self), r) == old(self).after_service(),
            r is None ==> final(self).wf(),
    {
        if self.bounded {
            self.serviced = self.serviced + 1;
            if self.serviced >= QEMU_TICK_CAP {
                return Some(LoopAction::Exit(0));
            }
        }
        None
    }
}

/// Enter the service loop: the baseline policy is installed, and the first frame is
/// rendered without waiting for a tick. Gives the loop and that frame.
pub fn service_loop(
    kernel: &mut KernelState,
    tick: u64,
    bounded: bool,
    registered: bool,
    rat: Option<RatGeneration>,
    detector_online: bool,
    level: ThreatLevel,
) -> (r: (ServiceLoop, Frame))
    requires
        old(kernel).wf(),
    ensures
        final(kernel).wf(),
        final(kernel).firewall@ == with_baseline_policy(old(kernel).firewall@),
        *final(kernel) == (KernelState { firewall: final(kernel).firewall, ..*old(kernel) }),
        r.0 == (ServiceLoop { last_tick: tick, bounded, serviced: 0, wakes: 0 }),
        r.0.wf(),
        r.1 == old(kernel).shown(registered, rat, detector_online, level),
{
    kernel.apply_firewall_policy();
    let frame = kernel.frame(registered, rat, detector_online, level);
    (ServiceLoop::new(tick, bounded), frame)
}

/// Whether the core may sleep, looked at again with interrupts masked: only where no
/// reflex is pending and no tick has passed since.
pub fn may_sleep(reflex_pending: bool, now: u64, last_tick: u64) -> (r: bool)
    ensures
        r == (!reflex_pending && now == last_tick),
{
    !reflex_pending && now == last_tick
}

/// Law: pending reflexes are handled before any tick, and the loop idles only where
/// there is neither a reflex nor a new tick.
pub proof fn law_reflexes_come_first(l: ServiceLoop, reflex: bool, now: u64)
    requires
        l.wf(),
    ensures
        reflex ==> !(l.woken(reflex, now).1 is Service) && !(l.woken(reflex, now).1 is Idle),
        l.woken(reflex, now).1 is Idle ==> !reflex && now == l.last_tick,
{
}

/// Law: a tick is serviced once, and ticks that passed unserviced are taken together:
/// after a tick was serviced the loop idles until the counter moves again.
pub proof fn law_tick_is_serviced_once(l: ServiceLoop, now: u64)
    requires
        !l.bounded,
        now != l.last_tick,
    ensures
        l.woken(false, now).1 == LoopAction::Service(now),
        l.woken(false, now).0.woken(false, now).1 == LoopAction::Idle,
{
}

/// Law: a bounded run ends: each wake brings it nearer to its ceiling, even where the
/// tick counter stands still.
pub proof fn law_bounded_runs_end(l: ServiceLoop, reflex: bool, now: u64)
    requires
        l.bounded,
        l.wf(),
    ensures
        l.woken(reflex, now).1 is Exit || QEMU_WAKE_CEILING - l.woken(reflex, now).0.wakes
            < QEMU_WAKE_CEILING - l.wakes,
        l.wakes == QEMU_WAKE_CEILING - 1 ==> l.woken(reflex, now).1 == LoopAction::Exit(5),
{
}

/// Law: an unbounded loop never ends.
pub proof fn law_the_phone_never_exits(l: ServiceLoop, reflex: bool, now: u64)
    requires
        !l.bounded,
    ensures
        !(l.woken(reflex, now).1 is Exit),
        l.after_service().1 is None,
        !l.woken(reflex, now).0.bounded,
{
}

// ---------------------------------------------------------------------------
// One tick
// ---------------------------------------------------------------------------

/// What the supervisor decides on a fault report.
#[derive(Clone, Copy, PartialEq, Eq, Structural, Debug)]
pub enum Decision {
    /// The process is not supervised.
    Leave,
    /// Relaunch the service.
    Restart,
    /// The service has crashed too often.
    GiveUp,
}

/// What is done next while a tick is serviced.
#[derive(Clone, Copy, PartialEq, Eq, Structural, Debug)]
pub enum TickStep {
    /// Take the next fault report, if there is one.
    PopFault,
    /// Enter the report in the audit chain.
    AuditFault,
    /// Ask the supervisor.
    Decide,
    /// Relaunch the service.
    Restart,
    /// Report that the service is given up.
    GiveUp,
    /// Free the slots of dead processes.
    Reap,
    /// Handle one key.
    PollInput,
    /// Poll the subsystems.
    PollAll,
    /// Render the active screen.
    Render,
    /// The tick is serviced.
    Done,
}

/// What came of a step.
#[derive(Clone, Copy, PartialEq, Eq, Structural, Debug)]
pub enum TickEvent {
    /// The step is over.
    Done,
    /// There was a fault report.
    Report,
    /// The supervisor decided.
    Decided(Decision),
    /// Navigation changed the active screen.
    Navigated,
    /// A new second has begun.
    NewSecond,
}

/// The servicing of a tick.
#[derive(Clone, Copy, PartialEq, Eq, Structural, Debug)]
pub struct TickPass {
    /// What is done next.
    pub step: TickStep,
    /// Navigation changed the active screen.
    pub navigated: bool,
}

impl TickPass {
    /// The pass after its step came to an end. All fault reports are taken, each of them
    /// audited before it is acted on, before any slot is freed; then input, then the
    /// subsystems; the screen is rendered where either changed what it shows.
    pub open spec fn advanced(self, event: TickEvent) -> TickPass {
        match self.step {
            TickStep::PopFault => if event == TickEvent::Report {
                TickPass { step: TickStep::AuditFault, ..self }
            } else {
                TickPass { step: TickStep::Reap, ..self }
            },
            TickStep::AuditFault => TickPass { step: TickStep::Decide, ..self },
            TickStep::Decide => TickPass {
                step: match event {
                    TickEvent::Decided(Decision::Restart) => TickStep::Restart,
                    TickEvent::Decided(Decision::GiveUp) => TickStep::GiveUp,
                    _ => TickStep::PopFault,
                },
                ..self
            },
            TickStep::Restart => TickPass { step: TickStep::PopFault, ..self },
            TickStep::GiveUp => TickPass { step: TickStep::PopFault, ..self },
            TickStep::Reap => TickPass { step: TickStep::PollInput, ..self },
            TickStep::PollInput => TickPass {
                step: TickStep::PollAll,
                navigated: event == TickEvent::Navigated,
            },
            TickStep::PollAll => if event == TickEvent::NewSecond || self.navigated {
                TickPass { step: TickStep::Render, ..self }
            } else {
                TickPass { step: TickStep::Done, ..self }
            },
            TickStep::Render => TickPass { step: TickStep::Done, ..self },
            TickStep::Done => self,
        }
    }

    /// Start servicing a tick.
    pub fn new() -> (r: Self)
        ensures
            r == (TickPass { step: TickStep::PopFault, navigated: false }),
    {
        TickPass { step: TickStep::PopFault, navigated: false }
    }

    /// Take over what came of the step.
    pub fn advance(&mut self, event: TickEvent)
        ensures
            *final(self) == old(self).advanced(event),
    {
        match self.step {
            TickStep::PopFault => {
                self.step = if event == TickEvent::Report {
                    TickStep::AuditFault
                } else {
                    TickStep::Reap
                };
            },
            TickStep::AuditFault => {
                self.step = TickStep::Decide;
            },
            TickStep::Decide => {
                self.step = match event {
                    TickEvent::Decided(Decision::Restart) => TickStep::Restart,
                    TickEvent::Decided(Decision::GiveUp) => TickStep::GiveUp,
                    _ => TickStep::PopFault,
                };
            },
            TickStep::Restart => {
                self.step = TickStep::PopFault;
            },
            TickStep::GiveUp => {
                self.step = TickStep::PopFault;
            },
            TickStep::Reap => {
                self.step = TickStep::PollInput;
            },
            TickStep::PollInput => {
                self.navigated = event == TickEvent::Navigated;
                self.step = TickStep::PollAll;
            },
            TickStep::PollAll => {
                self.step = if event == TickEvent::NewSecond || self.navigated {
                    TickStep::Render
                } else {
                    TickStep::Done
                };
            },
            TickStep::Render => {
                self.step = TickStep::Done;
            },
            TickStep::Done => {},
        }
    }
}

/// Law: no slot of a dead process is freed while a fault report is left: the pass goes
/// on to the reaper only when there was no further report.
pub proof fn law_faults_are_drained_before_reaping(p: TickPass, event: TickEvent)
    requires
        p.step != TickStep::Reap,
        p.advanced(event).step == TickStep::Reap,
    ensures
        p.step == TickStep::PopFault,
        event != TickEvent::Report,
{
}

/// Law: every fault report is audited before the supervisor is asked, and a service is
/// relaunched only where the supervisor said so: one that exits cleanly leaves no report
/// and is never relaunched.
pub proof fn law_restarts_follow_audited_faults(p: TickPass, event: TickEvent)
    ensures
        p.step != TickStep::Decide && p.advanced(event).step == TickStep::Decide ==> p.step
            == TickStep::AuditFault,
        p.step != TickStep::AuditFault && p.advanced(event).step == TickStep::AuditFault ==> p.step
            == TickStep::PopFault && event == TickEvent::Report,
        p.step != TickStep::Restart && p.advanced(event).step == TickStep::Restart ==> p.step
            == TickStep::Decide && event == TickEvent::Decided(Decision::Restart),
{
}

/// Law: a frame is rendered in a tick exactly where the second changed or navigation
/// changed the screen.
pub proof fn law_render_iff_dirty(p: TickPass, nav: TickEvent, polled: TickEvent)
    requires
        p.step == TickStep::PollInput,
    ensures
        p.advanced(nav).advanced(polled).step == TickStep::Render <==> (nav == TickEvent::Navigated
            || polled == TickEvent::NewSecond),
{
}

// ---------------------------------------------------------------------------
// Relaunching a service
// ---------------------------------------------------------------------------

/// What is done next while a supervised service is relaunched.
#[derive(Clone, Copy, PartialEq, Eq, Structural, Debug)]
pub enum RestartStep {
    /// Mask the interrupts.
    MaskInterrupts,
    /// Switch to the identity table of the kernel.
    UseKernelTable,
    /// Find the image by its name: a dead process keeps none.
    FindImage,
    /// Load the image.
    LoadImage,
    /// Start the process.
    Spawn,
    /// Enter the new PID with the supervisor.
    Register(u8),
    /// Unmask the interrupts; the service was relaunched under the PID, or not at all.
    Unmask(Option<u8>),
}

/// What came of a step: whether it worked, and with which PID for
/// [`RestartStep::Spawn`].
pub open spec fn restart_advanced(step: RestartStep, ok: bool, pid: u8) -> RestartStep {
    match step {
        RestartStep::MaskInterrupts => RestartStep::UseKernelTable,
        RestartStep::UseKernelTable => RestartStep::FindImage,
        RestartStep::FindImage => if ok {
            RestartStep::LoadImage
        } else {
            RestartStep::Unmask(None)
        },
        RestartStep::LoadImage => if ok {
            RestartStep::Spawn
        } else {
            RestartStep::Unmask(None)
        },
        RestartStep::Spawn => if ok {
            RestartStep::Register(pid)
        } else {
            RestartStep::Unmask(None)
        },
        RestartStep::Register(p) => RestartStep::Unmask(Some(p)),
        RestartStep::Unmask(r) => RestartStep::Unmask(r),
    }
}

/// Relaunch a supervised service, one step at a time.
pub fn restart_supervised(step: RestartStep, ok: bool, pid: u8) -> (r: RestartStep)
    ensures
        r == restart_advanced(step, ok, pid),
{
    match step {
        RestartStep::MaskInterrupts => RestartStep::UseKernelTable,
        RestartStep::UseKernelTable => RestartStep::FindImage,
        RestartStep::FindImage => if ok {
            RestartStep::LoadImage
        } else {
            RestartStep::Unmask(None)
        },
        RestartStep::LoadImage => if ok {
            RestartStep::Spawn
        } else {
            RestartStep::Unmask(None)
        },
        RestartStep::Spawn => if ok {
            RestartStep::Register(pid)
        } else {
            RestartStep::Unmask(None)
        },
        RestartStep::Register(p) => RestartStep::Unmask(Some(p)),
        RestartStep::Unmask(r) => RestartStep::Unmask(r),
    }
}

/// Law: a started service is registered before the interrupts are unmasked, and under the
/// PID that it was started with; where it was not started, nothing is registered.
pub proof fn law_relaunch_is_atomic(step: RestartStep, ok: bool, pid: u8)
    ensures
        !(step is Unmask) && restart_advanced(step, ok, pid) is Unmask
            && restart_advanced(step, ok, pid)->Unmask_0 is Some ==> step is Register
            && step->Register_0 == restart_advanced(step, ok, pid)->Unmask_0->0,
        restart_advanced(step, ok, pid) is Register ==> step == RestartStep::Spawn && ok
            && restart_advanced(step, ok, pid)->Register_0 == pid,
{
}

// ---------------------------------------------------------------------------
// Boot checks
// ---------------------------------------------------------------------------

/// The title of the event that the calendar check enters.
pub open spec fn check_title() -> Seq<u8> {
    encode_utf8("Boot check"@)
}

/// The label of the alarm that the calendar check sets.
pub open spec fn check_label() -> Seq<u8> {
    encode_utf8("Wake"@)
}

/// The manager after the calendar check at a wall-clock time.
pub open spec fn heorte_checked(m: HeorteModel, wall_clock: u64) -> HeorteModel {
    let now_ms = (wall_clock * 1000) as u64;
    let entered = m.with_event(
        check_title(),
        (wall_clock + 3600) as u64,
        30,
        false,
    ).with_alarm(7, 30, check_label(), true, 0).checked_at(wall_clock);
    HeorteModel {
        timer: Timer::of_duration(60).started(now_ms),
        stopwatch: entered.stopwatch.started(now_ms),
        ..entered
    }
}

/// Check the calendar at boot: enter an event and an alarm, check the alarms, arm the
/// countdown and start the stopwatch. Returns the number of events and of alarms and
/// whether the countdown is armed.
pub fn heorte_boot_smoke(heorte: &mut HeorteManager, wall_clock: u64) -> (r: (usize, usize, bool))
    requires
        old(heorte).wf(),
        old(heorte)@.next_event_id < u32::MAX,
        old(heorte)@.next_alarm_id < u32::MAX,
        wall_clock * 1000 <= u64::MAX,
    ensures
        final(heorte).wf(),
        final(heorte)@ == heorte_checked(old(heorte)@, wall_clock),
        r.0 == old(heorte)@.events.len() + 1,
        r.1 == old(heorte)@.alarms.len() + 1,
        r.2,
{
    let now_ms: u64 = wall_clock * 1000;
    proof {
        heorte.lemma_wf();
        crate::heorte::law_added_events_stay_sorted(
            heorte@,
            check_title(),
            (wall_clock + 3600) as u64,
            30,
            false,
        );
    }
    heorte.add_event("Boot check".as_bytes(), wall_clock + 3600, 30, false);
    heorte.add_alarm(7, 30, "Wake".as_bytes(), true, 0);
    heorte.check_alarms(wall_clock);
    let timer = heorte.timer_mut();
    timer.set_duration(60);
    timer.start(now_ms);
    let stopwatch = heorte.stopwatch_mut();
    stopwatch.start(now_ms);
    let armed: bool = !heorte.timer().expired();
    let events = heorte.events();
    let alarms = heorte.alarms();
    assert(event_models(events@).len() == events@.len());
    assert(alarm_models(alarms@).len() == alarms@.len());
    (events.len(), alarms.len(), armed)
}

/// What the radio check finds: whether it came on, whether it was tuned, and the
/// frequency, the signal strength and the volume then.
#[derive(Clone, Copy, PartialEq, Eq, Structural, Debug)]
pub struct FmCheck {
    pub powered: bool,
    pub tuned: bool,
    pub freq_khz: u32,
    pub rssi: i8,
    pub volume: u8,
}

/// The radio after the radio check.
pub open spec fn fm_checked<H: FmHwOps>(m: FmModel<H>) -> FmModel<H> {
    m.after_power_on().0.after_tune(103_300).0
}

/// Check the FM radio at boot: power on and tune.
pub fn fm_boot_smoke<H: FmHwOps>(fm: &mut FmRadio<H>) -> (r: FmCheck)
    requires
        old(fm)@.wf(),
    ensures
        final(fm)@.wf(),
        final(fm)@ == fm_checked(old(fm)@),
        r.powered == (old(fm)@.after_power_on().1 is Ok),
        r.tuned == (old(fm)@.after_power_on().0.after_tune(103_300).1 is Ok),
        r.freq_khz == (match final(fm)@.state {
            FmState::Tuned { frequency_khz } => frequency_khz,
            _ => 0,
        }),
        r.rssi == final(fm)@.hw.strength(),
        r.volume == final(fm)@.volume,
{
    let powered: bool = fm.power_on().is_ok();
    let tuned: bool = fm.tune(103_300).is_ok();
    let freq_khz: u32 = match fm.frequency() {
        Some(f) => f,
        None => 0,
    };
    FmCheck { powered, tuned, freq_khz, rssi: fm.rssi(), volume: fm.volume() }
}

/// Check the firewall at boot: send a packet out and let it come back in. Returns the
/// verdicts in both directions.
pub fn firewall_boot_smoke(firewall: &mut Firewall, packet: &[u8]) -> (r: (Action, Action))
    requires
        old(firewall)@.can_count(),
        old(firewall)@.after_packet(packet@, Direction::Outbound).can_count(),
    ensures
        r.0 == old(firewall)@.verdict(packet@, Direction::Outbound),
        r.1 == old(firewall)@.after_packet(packet@, Direction::Outbound).verdict(
            packet@,
            Direction::Inbound,
        ),
        final(firewall)@ == old(firewall)@.after_packet(
            packet@,
            Direction::Outbound,
        ).after_packet(packet@, Direction::Inbound),
{
    let out = firewall.evaluate_tx(packet);
    let back = firewall.evaluate_rx(packet);
    (out, back)
}

} // verus!
