//! Service loop and kernel state.
use thumos::firewall::{Action, Firewall};
use thumos::fm_radio::{BootFmHw, FmRadio, MockFmHw};
use thumos::heorte::HeorteManager;
use thumos::kardia::{
    firewall_boot_smoke, fm_boot_smoke, handle_reflex, heorte_boot_smoke, may_sleep, on_key,
    painted_pixels, restart_supervised, screen_kind, scripted_key, service_loop, status_network,
    threat_high, Decision, FmCheck, KernelState, LoopAction, NetworkService, Pending,
    RatGeneration, RestartStep, ScreenAction, ScreenId, ScreenKind, ScreenStack, ServiceLoop,
    ThreatLevel, TickEvent, TickPass, TickStep, BOOT_WALL_EPOCH, QEMU_TICK_CAP,
    QEMU_WAKE_CEILING,
};
use thumos::keypad::Key;
use thumos::kinit::BootState;
use thumos::security_mode::SecurityMode;

/// An IPv4 TCP packet from 10.0.0.1 to 9.9.9.9 port 53, without payload.
const PACKET: [u8; 40] = [
    0x45, 0x00, 0x00, 0x28, 0x00, 0x00, 0x00, 0x00, 0x00, 0x06, 0x00, 0x00, 0x0a, 0x00, 0x00, 0x01,
    0x09, 0x09, 0x09, 0x09, 0xc0, 0x00, 0x00, 0x35, 0x00, 0x00, 0x00, 0x00, 0x00, 0x00, 0x00, 0x00,
    0x50, 0x00, 0x00, 0x00, 0x00, 0x00, 0x00, 0x00,
];

fn kernel() -> KernelState {
    KernelState::new(
        BootState::new(true),
        SecurityMode::Daily,
        Firewall::new(),
        [7u8; 32],
    )
}

#[test]
fn screens_that_are_not_there_never_show_home() {
    assert_eq!(screen_kind(ScreenId::Home), ScreenKind::Home);
    assert_eq!(screen_kind(ScreenId::FmRadio), ScreenKind::FmRadio);
    assert_eq!(
        screen_kind(ScreenId::Planned(3)),
        ScreenKind::NotImplemented
    );
}

#[test]
fn navigation_goes_there_and_back() {
    let mut screens = ScreenStack::new();
    assert_eq!(screens.active_screen(), ScreenId::Home);
    assert_eq!(
        screens.apply_action(ScreenAction::Navigate(ScreenId::Search)),
        Some((ScreenId::Home, ScreenId::Search))
    );
    assert_eq!(screens.apply_action(ScreenAction::Stay), None);
    assert_eq!(
        screens.apply_action(ScreenAction::Back),
        Some((ScreenId::Search, ScreenId::Home))
    );
    assert_eq!(screens.apply_action(ScreenAction::Back), None);
    assert_eq!(
        screens.apply_action(ScreenAction::Navigate(ScreenId::Home)),
        None,
        "the same screen is no change"
    );
}

#[test]
fn keys_mean_something_on_their_screens() {
    assert_eq!(
        on_key(ScreenId::Home, Key::Rsk),
        ScreenAction::Navigate(ScreenId::Search)
    );
    assert_eq!(on_key(ScreenId::Dialer, Key::Rsk), ScreenAction::Stay);
    assert_eq!(on_key(ScreenId::Search, Key::End), ScreenAction::Back);
    assert_eq!(on_key(ScreenId::Home, Key::Num5), ScreenAction::Stay);
}

#[test]
fn the_script_presses_two_keys() {
    assert_eq!(scripted_key(0), Some(Key::Rsk));
    assert_eq!(scripted_key(1), Some(Key::End));
    assert_eq!(scripted_key(2), None);
}

#[test]
fn the_status_bar_tells_the_generation() {
    assert_eq!(
        status_network(false, Some(RatGeneration::FourG)),
        NetworkService::NoService
    );
    assert_eq!(
        status_network(true, Some(RatGeneration::TwoG)),
        NetworkService::Edge
    );
    assert_eq!(
        status_network(true, Some(RatGeneration::ThreeG)),
        NetworkService::ThreeG
    );
    assert_eq!(
        status_network(true, Some(RatGeneration::FourG)),
        NetworkService::Lte
    );
    assert_eq!(status_network(true, None), NetworkService::Lte);
    assert!(threat_high(true, ThreatLevel::Critical));
    assert!(threat_high(true, ThreatLevel::High));
    assert!(!threat_high(true, ThreatLevel::Elevated));
    assert!(!threat_high(false, ThreatLevel::Critical));
}

#[test]
fn blank_pixels_are_not_counted() {
    assert_eq!(painted_pixels(&[]), 0);
    assert_eq!(painted_pixels(&[0, 1, 0, 0xFFFF]), 2);
}

#[test]
fn a_frame_shows_the_active_screen() {
    let mut k = kernel();
    assert_eq!(
        k.screens
            .apply_action(ScreenAction::Navigate(ScreenId::Planned(7))),
        Some((ScreenId::Home, ScreenId::Planned(7)))
    );
    let frame = k.frame(true, None, true, ThreatLevel::Low);
    assert_eq!(frame.screen, ScreenKind::NotImplemented);
    assert_eq!(frame.requested, ScreenId::Planned(7));
    assert_eq!(frame.network, NetworkService::Lte);
    assert!(!frame.threat_high);
    assert_eq!(frame.mode, SecurityMode::Daily);
    assert_eq!(frame.epoch_secs, BOOT_WALL_EPOCH);
}

#[test]
fn subsystems_are_polled_once_per_second() {
    let mut k = kernel();
    k.heorte.add_alarm(0, 0, b"midnight", true, 0);
    k.heorte.timer_mut().set_duration(2);
    k.heorte.timer_mut().start(0);

    let r = k.poll_all(99, true, 86_400);
    assert!(!r.dirty && r.ring && r.alarms.is_empty() && !r.timer_expired);
    assert_eq!(k.wall_clock, BOOT_WALL_EPOCH);

    let r = k.poll_all(100, false, 86_400);
    assert!(r.dirty && !r.ring && !r.timer_expired);
    assert_eq!(r.alarms, vec![1]);
    assert_eq!(k.wall_clock, 86_400);
    assert!(!k.heorte.alarms()[0].enabled, "it rings once");

    let r = k.poll_all(250, false, 86_401);
    assert!(r.dirty && r.timer_expired && r.alarms.is_empty());
    assert_eq!(k.last_second, 2);
}

#[test]
fn the_baseline_policy_audits_outbound_dns_only() {
    let mut k = kernel();
    assert_eq!(k.apply_firewall_policy(), 1);
    assert_eq!(
        firewall_boot_smoke(&mut k.firewall, &PACKET),
        (Action::Log, Action::Deny)
    );
    assert_eq!(k.firewall.stats().packets_allowed, 1);
    assert_eq!(k.firewall.stats().packets_denied, 1);
    let mut other = PACKET;
    other[23] = 80;
    assert_eq!(k.firewall.evaluate_tx(&other), Action::Allow);
}

#[test]
fn reflexes_are_reported_by_urgency() {
    let all = Pending {
        panic_wipe: true,
        duress: true,
        incoming_ring: true,
    };
    assert!(all.any());
    assert_eq!(
        handle_reflex(all),
        vec![
            "[kardia] REFLEX panic-wipe\r\n",
            "[kardia] REFLEX duress\r\n",
            "[kardia] REFLEX incoming-ring\r\n",
        ]
    );
    let none = Pending {
        panic_wipe: false,
        duress: false,
        incoming_ring: false,
    };
    assert!(!none.any());
    assert!(handle_reflex(none).is_empty());
}

#[test]
fn reflexes_go_before_ticks() {
    let mut l = ServiceLoop::new(5, false);
    assert_eq!(l.wake(true, 6), LoopAction::HandleReflex);
    assert_eq!(l.wake(false, 9), LoopAction::Service(9));
    assert_eq!(l.wake(false, 9), LoopAction::Idle);
    assert_eq!(l.finish_tick(), None);
    assert!(may_sleep(false, 9, 9));
    assert!(!may_sleep(true, 9, 9));
    assert!(!may_sleep(false, 10, 9));
}

#[test]
fn a_bounded_run_ends_after_its_ticks() {
    let mut l = ServiceLoop::new(0, true);
    for tick in 1..=QEMU_TICK_CAP {
        assert_eq!(l.wake(false, tick as u64), LoopAction::Service(tick as u64));
        let over = l.finish_tick();
        assert_eq!(over.is_some(), tick == QEMU_TICK_CAP);
        if let Some(action) = over {
            assert_eq!(action, LoopAction::Exit(0));
        }
    }
}

#[test]
fn a_stalled_run_ends_at_its_ceiling() {
    let mut l = ServiceLoop::new(0, true);
    l.wakes = QEMU_WAKE_CEILING - 2;
    assert_eq!(l.wake(false, 0), LoopAction::Idle);
    assert_eq!(l.wake(true, 0), LoopAction::Exit(5));
}

#[test]
fn a_tick_is_serviced_in_order() {
    let mut pass = TickPass::new();
    let mut steps = vec![pass.step];
    for event in [
        TickEvent::Report,
        TickEvent::Done,
        TickEvent::Decided(Decision::Restart),
        TickEvent::Done,
        TickEvent::Report,
        TickEvent::Done,
        TickEvent::Decided(Decision::GiveUp),
        TickEvent::Done,
        TickEvent::Report,
        TickEvent::Done,
        TickEvent::Decided(Decision::Leave),
        TickEvent::Done,
        TickEvent::Done,
        TickEvent::Navigated,
        TickEvent::Done,
        TickEvent::Done,
    ] {
        pass.advance(event);
        steps.push(pass.step);
    }
    assert_eq!(
        steps,
        vec![
            TickStep::PopFault,
            TickStep::AuditFault,
            TickStep::Decide,
            TickStep::Restart,
            TickStep::PopFault,
            TickStep::AuditFault,
            TickStep::Decide,
            TickStep::GiveUp,
            TickStep::PopFault,
            TickStep::AuditFault,
            TickStep::Decide,
            TickStep::PopFault,
            TickStep::Reap,
            TickStep::PollInput,
            TickStep::PollAll,
            TickStep::Render,
            TickStep::Done,
        ]
    );
    pass.advance(TickEvent::NewSecond);
    assert_eq!(pass.step, TickStep::Done);
}

#[test]
fn a_frame_is_rendered_where_something_changed() {
    for (nav, polled, last) in [
        (TickEvent::Done, TickEvent::Done, TickStep::Done),
        (TickEvent::Navigated, TickEvent::Done, TickStep::Render),
        (TickEvent::Done, TickEvent::NewSecond, TickStep::Render),
        (TickEvent::Navigated, TickEvent::NewSecond, TickStep::Render),
    ] {
        let mut pass = TickPass::new();
        pass.advance(TickEvent::Done);
        pass.advance(TickEvent::Done);
        pass.advance(nav);
        pass.advance(polled);
        assert_eq!(pass.step, last);
    }
}

#[test]
fn a_relaunched_service_is_registered_before_the_mask_is_lifted() {
    let mut step = RestartStep::MaskInterrupts;
    let mut steps = vec![step];
    for _ in 0..6 {
        step = restart_supervised(step, true, 4);
        steps.push(step);
    }
    assert_eq!(
        steps,
        vec![
            RestartStep::MaskInterrupts,
            RestartStep::UseKernelTable,
            RestartStep::FindImage,
            RestartStep::LoadImage,
            RestartStep::Spawn,
            RestartStep::Register(4),
            RestartStep::Unmask(Some(4)),
        ]
    );
    for failing in [
        RestartStep::FindImage,
        RestartStep::LoadImage,
        RestartStep::Spawn,
    ] {
        assert_eq!(
            restart_supervised(failing, false, 4),
            RestartStep::Unmask(None)
        );
    }
}

#[test]
fn the_loop_is_entered_with_its_policy_and_a_frame() {
    let mut k = kernel();
    let (l, frame) = service_loop(
        &mut k,
        12,
        false,
        true,
        Some(RatGeneration::TwoG),
        true,
        ThreatLevel::High,
    );
    assert_eq!(l, ServiceLoop::new(12, false));
    assert_eq!(frame.screen, ScreenKind::Home);
    assert_eq!(frame.network, NetworkService::Edge);
    assert!(frame.threat_high);
    assert_eq!(k.firewall.rule_count(), 1);
}

#[test]
fn the_kernel_takes_over_from_the_boot() {
    let mut boot = BootState::new(true);
    boot.radio.modem_ok = true;
    let mut k = KernelState::new(boot, SecurityMode::Sentinel, Firewall::new(), [9u8; 32]);
    assert!(k.modem_path_available());
    assert!(!kernel().modem_path_available());
    assert_eq!(k.audit_key.as_bytes(), &[9u8; 32]);
    assert_eq!(k.fm.volume(), 8);
    assert_eq!(k.fm.preset_count(), 0);
    assert_eq!(k.poll_input(false), None, "the device has no script");
    assert_eq!(k.input_cursor, 0);
    assert_eq!(
        k.poll_input(true),
        Some((ScreenId::Home, ScreenId::Search)),
        "the script goes to the search screen"
    );
    assert_eq!(k.poll_input(true), Some((ScreenId::Search, ScreenId::Home)));
    assert_eq!(k.poll_input(true), None);
    assert_eq!(k.input_cursor, 2);
}

#[test]
fn the_boot_checks_exercise_their_subsystems() {
    let mut heorte = HeorteManager::new();
    assert_eq!(
        heorte_boot_smoke(&mut heorte, BOOT_WALL_EPOCH),
        (1, 1, true)
    );
    assert_eq!(heorte.events()[0].title_str(), "Boot check");
    assert!(heorte.stopwatch().running);
    assert_eq!(heorte.timer().remaining_secs, 60);

    let mut fm = FmRadio::new(BootFmHw::new());
    let check = fm_boot_smoke(&mut fm);
    assert!(check.powered && check.tuned);
    assert_eq!(check.freq_khz, 103_300);

    let mut hw = MockFmHw::new();
    hw.power_on_ok = false;
    let mut dead = FmRadio::new(hw);
    let rssi = dead.rssi();
    assert_eq!(
        fm_boot_smoke(&mut dead),
        FmCheck {
            powered: false,
            tuned: false,
            freq_khz: 0,
            rssi,
            volume: 8,
        }
    );
}
