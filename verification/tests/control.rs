use recurrent_visualizer::app::App;
use recurrent_visualizer::arith::Op;
use recurrent_visualizer::config::{Config, Outcome};
use recurrent_visualizer::display::{
    borderless, list_displays, place_on_display, retry_on_x11, set_fullscreen, target_monitor,
    Fullscreen, FullscreenEnforcer, Geometry, Monitor, Placement, Poll, Target,
};
use recurrent_visualizer::macos::{
    activity_options, collection_behavior, presentation_options, window_level,
};
use recurrent_visualizer::osc::{
    arguments, control, float_osc, int_osc, receive, Control, Message, OscArg, Packet,
};
use recurrent_visualizer::plot::Plot;
use recurrent_visualizer::session::{moves_to, opens_fullscreen, Key, Session};
use rosc::{OscBundle, OscMessage, OscPacket, OscTime, OscType};

fn fpu(op: Op, a: u32, b: u32) -> u32 {
    let (a, b) = (f32::from_bits(a), f32::from_bits(b));
    match op {
        Op::Add => a + b,
        Op::Sub => a - b,
        Op::Mul => a * b,
        Op::Div => a / b,
        Op::Pow => a.powf(b),
    }
    .to_bits()
}

fn datagram(addr: &str, args: Vec<OscType>) -> Vec<u8> {
    rosc::encoder::encode(&OscPacket::Message(OscMessage { addr: addr.to_string(), args })).unwrap()
}

fn send(app: &mut App, addr: &str, args: Vec<OscType>) -> Control {
    control(app, &receive(&datagram(addr, args)).unwrap())
}

#[test]
fn datagrams_are_decoded() {
    let packet = receive(&datagram("/factor", vec![OscType::Float(2.5), OscType::Int(1)])).unwrap();
    assert_eq!(float_osc(&packet), Some(2.5f32.to_bits()));
    assert_eq!(int_osc(&packet), None);
    assert!(matches!(&packet, Packet::Message(m) if m.addr == "/factor"));
    let packet = receive(&datagram("/offsetx", vec![OscType::Int(-3)])).unwrap();
    assert_eq!(int_osc(&packet), Some(-3));
    assert_eq!(float_osc(&packet), None);
    let args = vec![OscType::Double(1.0), OscType::Int(4), OscType::Float(0.5)];
    let packet = receive(&datagram("/x", args)).unwrap();
    assert!(matches!(
        &packet,
        Packet::Message(Message { args, .. })
            if *args == vec![OscArg::Other, OscArg::Int(4), OscArg::Float(0.5f32.to_bits())]
    ));
    assert_eq!((float_osc(&packet), int_osc(&packet)), (None, None));
    let packet = receive(&datagram("/x", vec![])).unwrap();
    assert!(matches!(&packet, Packet::Message(Message { args, .. }) if args.is_empty()));
    assert_eq!((float_osc(&packet), int_osc(&packet)), (None, None));
    let bundle = OscPacket::Bundle(OscBundle {
        timetag: OscTime { seconds: 0, fractional: 1 },
        content: vec![],
    });
    let packet = receive(&rosc::encoder::encode(&bundle).unwrap()).unwrap();
    assert!(matches!(packet, Packet::Bundle));
    assert_eq!((float_osc(&packet), int_osc(&packet)), (None, None));
    assert_eq!(receive(&[]).unwrap_err().reason, "BadPacket(\"Empty packet.\")");
    assert!(receive(&[1, 2, 3]).is_err());
}

#[test]
fn arguments_are_told_apart_by_their_reading() {
    assert_eq!(
        arguments(&[(Some(7), None), (None, Some(-7)), (None, None)]),
        vec![OscArg::Float(7), OscArg::Int(-7), OscArg::Other]
    );
    assert!(arguments(&[]).is_empty());
}

#[test]
fn messages_set_their_control() {
    let mut app = App::new(2, Plot::Two, &fpu);
    assert!(matches!(send(&mut app, "/factor", vec![OscType::Float(2.0)]), Control::Done));
    assert!(matches!(send(&mut app, "/exponent", vec![OscType::Float(0.5)]), Control::Done));
    assert!(matches!(send(&mut app, "/bwmode", vec![OscType::Int(1)]), Control::Done));
    assert!(matches!(send(&mut app, "/offsetx", vec![OscType::Int(7)]), Control::Done));
    assert!(matches!(send(&mut app, "/offsety", vec![OscType::Int(-8)]), Control::Done));
    assert!(matches!(send(&mut app, "/zoom", vec![OscType::Float(3.0)]), Control::Done));
    assert_eq!(app.factor, 2.0f32.to_bits());
    assert_eq!(app.exponent, 0.5f32.to_bits());
    assert_eq!((app.bwmode, app.offset_x, app.offset_y), (1, 7, -8));
    assert_eq!(app.zoom, 3.0f32.to_bits());
    send(&mut app, "/bwmode", vec![OscType::Int(257)]);
    assert_eq!(app.bwmode, 1);
    send(&mut app, "/bwmode", vec![OscType::Int(-1)]);
    assert_eq!(app.bwmode, 255);
    send(&mut app, "/bwmode", vec![OscType::Int(i32::MIN)]);
    assert_eq!(app.bwmode, 0);
}

#[test]
fn only_the_first_argument_counts() {
    let mut app = App::new(2, Plot::Two, &fpu);
    send(&mut app, "/factor", vec![OscType::Float(2.0), OscType::Float(3.0), OscType::Int(4)]);
    send(&mut app, "/offsetx", vec![OscType::Int(5), OscType::Int(6)]);
    send(&mut app, "/zoom", vec![OscType::Int(1), OscType::Float(7.0)]);
    assert_eq!((app.factor, app.offset_x), (2.0f32.to_bits(), 5));
    assert_eq!(app.zoom, 1.0f32.to_bits());
}

#[test]
fn wrong_arguments_and_unknown_addresses_change_nothing() {
    let mut app = App::new(2, Plot::Two, &fpu);
    send(&mut app, "/factor", vec![OscType::Int(2)]);
    send(&mut app, "/zoom", vec![]);
    send(&mut app, "/offsetx", vec![OscType::Float(2.0)]);
    assert_eq!((app.factor, app.zoom, app.offset_x), (1.0f32.to_bits(), 1.0f32.to_bits(), 0));
    assert!(matches!(
        send(&mut app, "/nope", vec![OscType::Int(2)]),
        Control::UnknownAddress(addr) if addr == "/nope"
    ));
    assert!(matches!(control(&mut app, &Packet::Bundle), Control::Done));
    assert!(matches!(send(&mut app, "/fullscreen", vec![OscType::Float(1.0)]), Control::Done));
    assert!(matches!(send(&mut app, "/fullscreen", vec![OscType::Int(2)]), Control::Fullscreen(true)));
    assert!(matches!(send(&mut app, "/fullscreen", vec![OscType::Int(0)]), Control::Fullscreen(false)));
}

fn config(args: &[&str]) -> Config {
    match Config::from_args(&args.iter().map(|arg| arg.to_string()).collect()).outcome {
        Outcome::Run(cfg) => cfg,
        other => panic!("{:?}", other),
    }
}

#[test]
fn keys_toggle_fullscreen() {
    let mut session = Session::new(&config(&[]), 1024, 768);
    assert!(!session.is_fullscreen);
    assert_eq!(session.on_key(Key::F, true), Some(true));
    assert_eq!(session.on_key(Key::F, false), None);
    assert_eq!(session.on_key(Key::Other, true), None);
    assert!(session.is_fullscreen);
    assert_eq!(session.on_key(Key::F11, true), Some(false));
    assert!(!session.is_fullscreen);
    assert_eq!(session.on_control(&Control::Fullscreen(true)), Some(true));
    assert_eq!(session.on_control(&Control::Fullscreen(true)), Some(true));
    assert_eq!(session.on_control(&Control::Done), None);
    assert!(session.is_fullscreen);
    assert!(Session::new(&config(&["-f"]), 1, 1).is_fullscreen);
}

#[test]
fn size_changes_reattach_the_context() {
    let mut session = Session::new(&config(&[]), 1024, 768);
    assert!(!session.on_size(1024, 768));
    assert!(session.on_size(1024, 769));
    assert!(session.on_size(1025, 769));
    assert!(!session.on_size(1025, 769));
    assert_eq!(session.size, (1025, 769));
}

#[test]
fn focus_gives_the_screen_back() {
    let mut session = Session::new(&config(&["-f"]), 1, 1);
    let gained = session.on_focus(true, true);
    assert!(gained.reattach && gained.hide_menu_bar && gained.level == Some(25));
    let lost = session.on_focus(false, true);
    assert!(!lost.reattach && !lost.hide_menu_bar && lost.level == Some(0));
    let elsewhere = session.on_focus(true, false);
    assert!(elsewhere.reattach && !elsewhere.hide_menu_bar && elsewhere.level.is_none());
    session.is_fullscreen = false;
    assert!(session.on_focus(true, true).level.is_none());
}

#[test]
fn windows_open_where_they_should() {
    assert!(opens_fullscreen(&config(&["-f"]), false));
    assert!(!opens_fullscreen(&config(&["-f"]), true));
    assert!(!opens_fullscreen(&config(&[]), false));
    assert_eq!(moves_to(&config(&["--display", "2"])), Some(1));
    assert_eq!(moves_to(&config(&["--display", "2", "-f"])), None);
    assert!(retry_on_x11(true, false));
    assert!(!retry_on_x11(true, true) && !retry_on_x11(false, false));
}

fn geometry(x: i32, width: u32, height: u32) -> Geometry {
    Geometry { x, y: 0, width, height }
}

fn monitors() -> Vec<Monitor> {
    vec![
        Monitor { name: Some("eDP-1".to_string()), geometry: geometry(0, 2880, 1800) },
        Monitor { name: None, geometry: geometry(2880, 1920, 1080) },
    ]
}

#[test]
fn displays_are_listed_and_found() {
    let lines = list_displays(&monitors());
    assert_eq!((lines[0].number, lines[0].name.as_str()), (1, "eDP-1"));
    assert_eq!((lines[1].number, lines[1].name.as_str()), (2, "<unnamed>"));
    assert_eq!(lines[1].geometry, geometry(2880, 1920, 1080));
    assert!(matches!(
        place_on_display(&monitors(), 1),
        Placement::Move(line) if line.number == 2 && line.geometry.x == 2880
    ));
    assert!(matches!(place_on_display(&monitors(), 2), Placement::Missing(3)));
    assert_eq!(target_monitor(2, Some(1)), Target::Listed(1));
    assert_eq!(target_monitor(2, Some(2)), Target::Current);
    assert_eq!(target_monitor(2, None), Target::Current);
    assert_eq!(borderless(true, 2, Some(0)), Some(Target::Listed(0)));
    assert_eq!(borderless(false, 2, Some(0)), None);
}

#[test]
fn leaving_fullscreen_restores_the_window() {
    let (windowed, one, two) = (geometry(5, 1024, 768), geometry(0, 2880, 1800), geometry(9, 8, 7));
    let mut saved = None;
    let step = set_fullscreen(true, Some(one), windowed, &mut saved);
    assert_eq!(step, Fullscreen::Enter(one));
    assert_eq!(step.requested(), Some(one));
    assert_eq!(set_fullscreen(true, Some(two), one, &mut saved), Fullscreen::Enter(two));
    assert_eq!(set_fullscreen(true, None, two, &mut saved), Fullscreen::Nothing);
    for _ in 0..5 {
        assert_eq!(set_fullscreen(true, Some(one), two, &mut saved), Fullscreen::Enter(one));
    }
    assert_eq!(saved, Some(windowed));
    let step = set_fullscreen(false, Some(two), two, &mut saved);
    assert_eq!(step, Fullscreen::Leave(Some(windowed)));
    assert_eq!(step.requested(), None);
    assert_eq!(saved, None);
    assert_eq!(set_fullscreen(false, None, windowed, &mut saved), Fullscreen::Leave(None));
}

const MS: u64 = 1_000_000;

#[test]
fn the_enforcer_settles_on_a_match() {
    let goal = geometry(0, 1920, 1080);
    let mut enforcer = FullscreenEnforcer::new(0);
    assert_eq!(enforcer.poll(5, 1, 1), Poll::Idle);
    enforcer.aim(Some(goal), 10);
    assert_eq!(enforcer.poll(20, 1920, 1083), Poll::Wait);
    assert_eq!(enforcer.poll(30, 1918, 1082), Poll::Matched);
    assert_eq!(enforcer.poll(40, 1, 1), Poll::Idle);
    enforcer.aim(None, 50);
    assert_eq!(enforcer.poll(60, 1, 1), Poll::Idle);
}

#[test]
fn the_enforcer_applies_at_intervals_and_gives_up() {
    let goal = geometry(0, 1920, 1080);
    let mut enforcer = FullscreenEnforcer::new(0);
    enforcer.aim(Some(goal), 0);
    assert_eq!(enforcer.poll(99 * MS, 960, 540), Poll::Wait);
    assert_eq!(enforcer.poll(100 * MS, 960, 540), Poll::Apply(goal));
    assert_eq!(enforcer.poll(199 * MS, 961, 540), Poll::Wait);
    assert_eq!(enforcer.stable_polls, 0);
    assert_eq!(enforcer.poll(200 * MS, 961, 540), Poll::Apply(goal));
    // Changing all the time, until time is up.
    assert_eq!(enforcer.poll(2999 * MS, 7, 7), Poll::Apply(goal));
    assert_eq!(enforcer.poll(3000 * MS, 8, 8), Poll::Settled);
    assert_eq!(enforcer.poll(3001 * MS, 9, 9), Poll::Idle);
}

#[test]
fn the_enforcer_settles_on_a_stable_size_after_the_grace() {
    let goal = geometry(0, 1920, 1080);
    let mut enforcer = FullscreenEnforcer::new(0);
    enforcer.aim(Some(goal), 0);
    for _ in 0..20 {
        assert_eq!(enforcer.poll(50 * MS, 960, 540), Poll::Wait);
    }
    assert_eq!(enforcer.stable_polls, 19);
    assert_eq!(enforcer.poll(699 * MS, 960, 540), Poll::Apply(goal));
    assert_eq!(enforcer.poll(700 * MS, 960, 540), Poll::Settled);

    enforcer.aim(Some(goal), 0);
    for _ in 0..12 {
        assert_ne!(enforcer.poll(800 * MS, 960, 540), Poll::Settled);
    }
    assert_eq!(enforcer.poll(800 * MS, 960, 540), Poll::Settled);
}

#[test]
fn macos_masks() {
    assert_eq!(collection_behavior(0), 1 << 9);
    assert_eq!(collection_behavior(u64::MAX), u64::MAX & !(1 << 7) & !(1 << 8));
    assert_eq!(collection_behavior(1 << 7 | 1 << 3), 1 << 9 | 1 << 3);
    assert_eq!(presentation_options(true), 1 << 1 | 1 << 3);
    assert_eq!(presentation_options(false), 0);
    assert_eq!(activity_options(), 0x00ff_ffff | 1 << 20 | 0x0000_00ff_0000_0000 | 1 << 40);
    assert_eq!(window_level(true, true), 25);
    assert_eq!(window_level(true, false), 0);
    assert_eq!(window_level(false, true), 0);
}
