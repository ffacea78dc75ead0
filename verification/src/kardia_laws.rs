//! What the service loop, the screens and the supervision promise.
use crate::firewall::{Action, Direction, FirewallModel};
use crate::fm_radio::{FmHwOps, FmModel};
use crate::heorte::HeorteModel;
use crate::heorte_timer::Timer;
use crate::kardia::{
    action_on, fm_checked, heorte_checked, kind_of_screen, navigated, painted, reflex_reports,
    restart_advanced, service_of, with_baseline_policy, Decision, KernelState, LoopAction,
    NetworkService, Pending, RatGeneration, RestartStep, ScreenAction, ScreenId, ScreenKind,
    ServiceLoop, ThreatLevel, TickEvent, TickPass, TickStep, BOOT_WALL_EPOCH, TICKS_PER_SECOND,
    TICK_MS,
};
use crate::keypad::Key;
use vstd::prelude::*;
use vstd::utf8::*;

verus! {

// ---------------------------------------------------------------------------
// Screens
// ---------------------------------------------------------------------------

/// Law: going to a screen shows it, going back shows the one before it, and from the first
/// screen there is no way back; staying changes nothing.
pub proof fn law_navigation_leads_there_and_back(screens: Seq<ScreenId>, id: ScreenId)
    requires
        screens.len() > 0,
    ensures
        navigated(screens, ScreenAction::Navigate(id)).last() == id,
        navigated(screens, ScreenAction::Navigate(id)).drop_last() == screens,
        screens.len() > 1 ==> navigated(screens, ScreenAction::Back) == screens.drop_last(),
        screens.len() == 1 ==> navigated(screens, ScreenAction::Back) == screens,
        navigated(screens, ScreenAction::Stay) == screens,
        forall|a: ScreenAction| #[trigger] navigated(screens, a).len() > 0,
{
    assert(navigated(screens, ScreenAction::Navigate(id)).drop_last() =~= screens);
}

/// Law: the end key goes back from every screen, the right soft key leads from the home
/// screen to the search, and no other key navigates.
pub proof fn law_two_keys_navigate(screen: ScreenId, key: Key)
    ensures
        key == Key::End ==> action_on(screen, key) == ScreenAction::Back,
        key == Key::Rsk && screen == ScreenId::Home ==> action_on(screen, key)
            == ScreenAction::Navigate(ScreenId::Search),
        key != Key::End && !(key == Key::Rsk && screen == ScreenId::Home) ==> action_on(screen, key)
            == ScreenAction::Stay,
{
}

/// Law: every screen that is there is shown by what was made for it: no two of them look the
/// same.
pub proof fn law_screens_are_told_apart(a: ScreenId, b: ScreenId)
    ensures
        kind_of_screen(a) == kind_of_screen(b) ==> a == b || (a is Planned && b is Planned),
        kind_of_screen(ScreenId::Messages) == ScreenKind::Messages,
        kind_of_screen(ScreenId::Search) == ScreenKind::Search,
        kind_of_screen(ScreenId::Dialer) == ScreenKind::Dialer,
        kind_of_screen(ScreenId::Settings) == ScreenKind::Settings,
        kind_of_screen(ScreenId::Calendar) == ScreenKind::Calendar,
        kind_of_screen(ScreenId::FmRadio) == ScreenKind::FmRadio,
        kind_of_screen(ScreenId::Privacy) == ScreenKind::Privacy,
        kind_of_screen(ScreenId::RadioControl) == ScreenKind::RadioControl,
        kind_of_screen(ScreenId::ThreatMonitor) == ScreenKind::ThreatMonitor,
{
}

/// Law: there is service exactly with a registration, and the access technology says which; one
/// that is not told counts as the fourth generation.
pub proof fn law_service_follows_the_registration(
    registered: bool,
    rat: Option<RatGeneration>,
)
    ensures
        service_of(registered, rat) == NetworkService::NoService <==> !registered,
        service_of(registered, rat) == NetworkService::Edge <==> registered && rat == Some(
            RatGeneration::TwoG,
        ),
        service_of(registered, rat) == NetworkService::ThreeG <==> registered && rat == Some(
            RatGeneration::ThreeG,
        ),
{
}

/// Law: painted pixels are counted, each once.
pub proof fn law_painted_pixels_are_counted(fb: Seq<u16>, n: int)
    requires
        0 <= n <= fb.len(),
    ensures
        painted(fb, n) == fb.take(n).filter(|p: u16| p != 0).len(),
    decreases n,
{
    reveal(Seq::filter);
    if n > 0 {
        law_painted_pixels_are_counted(fb, n - 1);
        assert(fb.take(n).drop_last() =~= fb.take(n - 1));
        assert(fb.take(n).last() == fb[n - 1]);
    } else {
        assert(fb.take(0) =~= Seq::empty());
    }
}

// ---------------------------------------------------------------------------
// The loop
// ---------------------------------------------------------------------------

/// Law: the ticks of a second make up a thousand milliseconds.
pub proof fn law_ticks_make_up_seconds()
    ensures
        TICKS_PER_SECOND * TICK_MS == 1_000,
        TICK_MS == 10,
{
}

/// Law: every event that was raised is reported once, the wipe before the duress before the
/// ring.
pub proof fn law_reflexes_are_reported_by_urgency(p: Pending)
    ensures
        ({
            let r = reflex_reports(p);
            let n = (if p.panic_wipe {
                1int
            } else {
                0
            }) + (if p.duress {
                1int
            } else {
                0
            });
            &&& r.len() == n + (if p.incoming_ring {
                1int
            } else {
                0
            })
            &&& p.panic_wipe ==> r[0] == "[kardia] REFLEX panic-wipe\r\n"@
            &&& p.duress ==> r[n - 1] == "[kardia] REFLEX duress\r\n"@
            &&& p.incoming_ring ==> r.last() == "[kardia] REFLEX incoming-ring\r\n"@
            &&& p.is_any() <==> r.len() > 0
        }),
{
}

/// Law: what a wake does: a run under emulation ends after five million wakes; else a raised
/// event is handled, else a new tick is serviced, else the loop idles. Only servicing
/// remembers the tick.
pub proof fn law_wakes_do_the_most_urgent(l: ServiceLoop, raised: bool, now: u64)
    requires
        l.wf(),
    ensures
        ({
            let (r, action) = l.woken(raised, now);
            let over = l.bounded && l.wakes + 1 >= 5_000_000;
            &&& over ==> action == LoopAction::Exit(5)
            &&& !over && raised ==> action == LoopAction::HandleReflex
            &&& !over && !raised && now != l.last_tick ==> action == LoopAction::Service(now)
            &&& !over && !raised && now == l.last_tick ==> action == LoopAction::Idle
            &&& r.last_tick == (if action is Service {
                now
            } else {
                l.last_tick
            })
            &&& r.bounded == l.bounded
            &&& r.serviced == l.serviced
            &&& r.wakes == (if l.bounded {
                l.wakes + 1
            } else {
                l.wakes as int
            })
        }),
{
}

/// Law: a run under emulation ends well with the fiftieth tick that it serviced, and no
/// earlier.
pub proof fn law_emulated_runs_end_with_the_fiftieth_tick(l: ServiceLoop)
    requires
        l.wf(),
    ensures
        l.bounded ==> l.after_service().0.serviced == l.serviced + 1,
        l.bounded && l.serviced + 1 >= 50 ==> l.after_service().1 == Some(LoopAction::Exit(0)),
        l.bounded && l.serviced + 1 < 50 ==> l.after_service().1 is None,
        !l.bounded ==> l.after_service() == (l, None::<LoopAction>),
        l.after_service().0.last_tick == l.last_tick,
        l.after_service().0.wakes == l.wakes,
{
}

/// The pass after a history of events.
pub open spec fn pass_after(p: TickPass, events: Seq<TickEvent>) -> TickPass
    decreases events.len(),
{
    if events.len() == 0 {
        p
    } else {
        pass_after(p, events.drop_last()).advanced(events.last())
    }
}

/// Law: a fault report is audited, then judged; a service is relaunched or given up as the
/// judgement says, and then the next report is looked for. Nothing is left out.
pub proof fn law_fault_reports_take_their_course(p: TickPass, event: TickEvent)
    ensures
        p.step == TickStep::PopFault ==> p.advanced(event).step == (if event == TickEvent::Report {
            TickStep::AuditFault
        } else {
            TickStep::Reap
        }),
        p.step == TickStep::AuditFault ==> p.advanced(event).step == TickStep::Decide,
        p.step == TickStep::Decide && event == TickEvent::Decided(Decision::Restart)
            ==> p.advanced(event).step == TickStep::Restart,
        p.step == TickStep::Decide && event == TickEvent::Decided(Decision::GiveUp) ==> p.advanced(
            event,
        ).step == TickStep::GiveUp,
        p.step == TickStep::Decide && event == TickEvent::Decided(Decision::Leave) ==> p.advanced(
            event,
        ).step == TickStep::PopFault,
        p.step == TickStep::Restart || p.step == TickStep::GiveUp ==> p.advanced(event).step
            == TickStep::PopFault,
{
}

/// Law: without a report a tick frees the slots of the dead, takes one key, polls the
/// subsystems, renders where something changed, and is done; then it stays done.
pub proof fn law_quiet_ticks_run_through(
    p: TickPass,
    none: TickEvent,
    reaped: TickEvent,
    key: TickEvent,
    polled: TickEvent,
    last: TickEvent,
)
    requires
        p.step == TickStep::PopFault,
        none != TickEvent::Report,
    ensures
        pass_after(p, seq![none]).step == TickStep::Reap,
        pass_after(p, seq![none, reaped]).step == TickStep::PollInput,
        pass_after(p, seq![none, reaped, key]).step == TickStep::PollAll,
        pass_after(p, seq![none, reaped, key, polled]).step == (if key == TickEvent::Navigated
            || polled == TickEvent::NewSecond {
            TickStep::Render
        } else {
            TickStep::Done
        }),
        pass_after(p, seq![none, reaped, key, polled, last]).step == TickStep::Done,
{
    let a = seq![none];
    let b = seq![none, reaped];
    let c = seq![none, reaped, key];
    let d = seq![none, reaped, key, polled];
    let e = seq![none, reaped, key, polled, last];
    assert(a.drop_last() =~= Seq::<TickEvent>::empty());
    assert(pass_after(p, a.drop_last()) == p);
    assert(pass_after(p, a) == p.advanced(none));
    assert(b.drop_last() =~= a);
    assert(pass_after(p, b) == pass_after(p, a).advanced(reaped));
    assert(c.drop_last() =~= b);
    assert(pass_after(p, c) == pass_after(p, b).advanced(key));
    assert(d.drop_last() =~= c);
    assert(pass_after(p, d) == pass_after(p, c).advanced(polled));
    assert(e.drop_last() =~= d);
    assert(pass_after(p, e) == pass_after(p, d).advanced(last));
}

// ---------------------------------------------------------------------------
// Relaunching
// ---------------------------------------------------------------------------

/// Law: a relaunch masks the interrupts, switches the table, finds the image, loads it, starts
/// it and registers it, in this order, and then unmasks with the PID that it was started
/// with.
pub proof fn law_a_relaunch_goes_step_by_step(pid: u8, any: u8)
    ensures
        ({
            let a = restart_advanced(RestartStep::MaskInterrupts, true, any);
            let b = restart_advanced(a, true, any);
            let c = restart_advanced(b, true, any);
            let d = restart_advanced(c, true, any);
            let e = restart_advanced(d, true, pid);
            let f = restart_advanced(e, true, any);
            &&& a == RestartStep::UseKernelTable
            &&& b == RestartStep::FindImage
            &&& c == RestartStep::LoadImage
            &&& d == RestartStep::Spawn
            &&& e == RestartStep::Register(pid)
            &&& f == RestartStep::Unmask(Some(pid))
            &&& restart_advanced(f, true, any) == f
        }),
{
}

/// Law: where the image is not found, cannot be loaded or does not start, the interrupts are
/// unmasked without a relaunch; masking, switching and registering do not fail.
pub proof fn law_a_failed_relaunch_unmasks(step: RestartStep, pid: u8)
    ensures
        step == RestartStep::FindImage || step == RestartStep::LoadImage || step
            == RestartStep::Spawn ==> restart_advanced(step, false, pid) == RestartStep::Unmask(
            None,
        ),
        step == RestartStep::MaskInterrupts || step == RestartStep::UseKernelTable || step
            is Register || step is Unmask ==> restart_advanced(step, false, pid)
            == restart_advanced(step, true, pid),
{
}

// ---------------------------------------------------------------------------
// Input, frames and the checks of the boot
// ---------------------------------------------------------------------------

/// Law: the scripted keys are the right soft key and then the end key; there are no more, and
/// on the device there are none.
pub proof fn law_the_script_opens_and_closes_the_search(s: KernelState)
    ensures
        s.next_key(false) is None,
        s.screens_after_input(false) == s.screens@,
        s.input_cursor == 0 ==> s.next_key(true) == Some(Key::Rsk),
        s.input_cursor == 1 ==> s.next_key(true) == Some(Key::End),
        s.input_cursor > 1 ==> s.next_key(true) is None && s.screens_after_input(true)
            == s.screens@,
        s.screens@ == seq![ScreenId::Home] && s.input_cursor == 0 ==> s.screens_after_input(true)
            == seq![ScreenId::Home].push(ScreenId::Search),
{
    assert(seq![ScreenId::Home].last() == ScreenId::Home);
}

/// Law: a frame shows the active screen, the service of the network, the mode and the time, and
/// a threat exactly where the detector runs and finds it high or critical.
pub proof fn law_frames_show_what_is(
    s: KernelState,
    registered: bool,
    rat: Option<RatGeneration>,
    online: bool,
    level: ThreatLevel,
)
    ensures
        ({
            let f = s.shown(registered, rat, online, level);
            &&& f.requested == s.screens@.last()
            &&& f.screen == kind_of_screen(f.requested)
            &&& f.network == service_of(registered, rat)
            &&& f.mode == s.mode
            &&& f.epoch_secs == s.wall_clock
            &&& online && (level is High || level is Critical) ==> f.threat_high
            &&& !online ==> !f.threat_high
            &&& !(level is High || level is Critical) ==> !f.threat_high
        }),
{
}

/// Law: the boot starts its clock on the last day of 2024.
pub proof fn law_the_clock_starts_at_a_day()
    ensures
        BOOT_WALL_EPOCH == days_before_year(2024) * 86_400 + 365 * 86_400,
{
}

/// The days from the start of 1970 to the start of a later year.
pub open spec fn days_before_year(year: int) -> int {
    365 * (year - 1970) + (year - 1969) / 4
}

/// Law: the calendar check enters an event of half an hour in an hour, sets an alarm for half
/// past seven, has the alarms looked at, and starts a timer of a minute and the stopwatch.
pub proof fn law_the_calendar_check_uses_every_part(m: HeorteModel, now: u64)
    requires
        now + 3600 <= u64::MAX,
        now * 1000 <= u64::MAX,
    ensures
        ({
            let after = heorte_checked(m, now);
            let event = m.with_event(encode_utf8("Boot check"@), (now + 3600) as u64, 30, false);
            let alarm = event.with_alarm(7, 30, encode_utf8("Wake"@), true, 0);
            &&& after.events == event.events
            &&& after.alarms == alarm.checked_at(now).alarms
            &&& after.next_event_id == event.next_event_id
            &&& after.next_alarm_id == alarm.next_alarm_id
            &&& after.timer == Timer::of_duration(60).started((now * 1000) as u64)
            &&& after.stopwatch == m.stopwatch.started((now * 1000) as u64)
        }),
{
}

/// Law: the radio check turns the radio on and tunes it to 103.3 MHz.
pub proof fn law_the_radio_check_tunes<H: FmHwOps>(m: FmModel<H>)
    ensures
        fm_checked(m) == m.after_power_on().0.after_tune(103_300).0,
{
}

/// Law: the baseline policy logs outbound packets to the port of the name service, of whatever
/// protocol and to and from whatever address, in front of every other rule.
pub proof fn law_the_baseline_logs_name_queries(fw: FirewallModel)
    ensures
        ({
            let rules = with_baseline_policy(fw).rules;
            &&& rules.len() == fw.rules.len() + 1
            &&& rules.drop_first() == fw.rules
            &&& rules[0].direction == Direction::Outbound
            &&& rules[0].dst_port == Some(53u16)
            &&& rules[0].action == Action::Log
            &&& rules[0].protocol is None && rules[0].src_addr is None && rules[0].dst_addr is None
        }),
        with_baseline_policy(fw).blocklist == fw.blocklist,
        with_baseline_policy(fw).stats == fw.stats,
{
    assert(with_baseline_policy(fw).rules.drop_first() =~= fw.rules);
}

} // verus!
