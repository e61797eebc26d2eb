use wl_session::buffer::{solid_frame, BufferLayout, Color, PixelFormat};
use wl_session::error::{SessionError, UnhandledEvent};
use wl_session::handshake::{DecorationMode, Event, Handshake, Phase, Request};

const BLUE: Color = Color { alpha: 0xFF, red: 0x00, green: 0x00, blue: 0xFF };
const RED: Color = Color { alpha: 0xFF, red: 0xFF, green: 0x00, blue: 0x00 };

fn window() -> Handshake {
    Handshake::new(500, 500, BLUE, String::from("Hello, world!")).unwrap()
}

fn started() -> Handshake {
    let mut h = window();
    h.begin(true).unwrap();
    h
}

fn answer(h: &Handshake, serial: u32) -> Vec<Request> {
    vec![
        Request::AckConfigure { serial },
        Request::Attach { layout: h.layout(), fill: BLUE, x: 0, y: 0 },
        Request::Commit,
    ]
}

#[test]
fn layout_has_no_padding() {
    let l = BufferLayout::new(500, 500).unwrap();
    assert_eq!(l.width, 500);
    assert_eq!(l.height, 500);
    assert_eq!(l.stride, 2000);
    assert_eq!(l.size, 1_000_000);
    assert_eq!(l.format, PixelFormat::Argb8888);
    assert!(l.is_well_formed());
    let odd = BufferLayout::new(3, 7).unwrap();
    assert_eq!(odd.stride, 12);
    assert_eq!(odd.size, 84);
}

#[test]
fn layout_rejects_empty_and_oversized() {
    assert_eq!(BufferLayout::new(0, 10), Err(SessionError::Allocation));
    assert_eq!(BufferLayout::new(10, 0), Err(SessionError::Allocation));
    assert_eq!(BufferLayout::new(65536, 65536), Err(SessionError::Allocation));
    assert_eq!(BufferLayout::new(0x2000_0000, 1), Err(SessionError::Allocation));
    let largest = BufferLayout::new(0x1fff_ffff, 1).unwrap();
    assert_eq!(largest.size, 0x7fff_fffc);
}

#[test]
fn malformed_layout_detected() {
    let mut l = BufferLayout::new(4, 4).unwrap();
    l.stride = 20;
    assert!(!l.is_well_formed());
}

#[test]
fn blue_frame_bytes() {
    let l = BufferLayout::new(500, 500).unwrap();
    let bytes = solid_frame(&l, BLUE);
    assert_eq!(bytes.len(), 1_000_000);
    for px in bytes.chunks(4) {
        assert_eq!(px, &[0xFF, 0x00, 0x00, 0xFF]);
    }
}

#[test]
fn red_frame_is_little_endian_argb() {
    let l = BufferLayout::new(2, 1).unwrap();
    assert_eq!(solid_frame(&l, RED), vec![0x00, 0x00, 0xFF, 0xFF, 0x00, 0x00, 0xFF, 0xFF]);
    let c = Color { alpha: 0x11, red: 0x22, green: 0x33, blue: 0x44 };
    assert_eq!(solid_frame(&BufferLayout::new(1, 1).unwrap(), c), vec![0x44, 0x33, 0x22, 0x11]);
}

#[test]
fn begin_requests_roles() {
    let mut h = window();
    assert_eq!(h.phase(), Phase::Created);
    assert_eq!(
        h.begin(true).unwrap(),
        vec![
            Request::CreateSurface,
            Request::GetXdgSurface,
            Request::GetToplevel,
            Request::SetTitle { title: String::from("Hello, world!") },
            Request::GetToplevelDecoration,
            Request::SetDecorationMode { mode: DecorationMode::ServerSide },
            Request::Commit,
        ]
    );
    assert_eq!(h.phase(), Phase::AwaitingConfigure);
    assert_eq!(h.begin(true), Err(SessionError::ProtocolSequence));
}

#[test]
fn begin_without_decorations() {
    let mut h = window();
    let v = h.begin(false).unwrap();
    assert_eq!(v.len(), 5);
    assert_eq!(v[4], Request::Commit);
}

#[test]
fn configure_seven_answered_in_order() {
    let mut h = started();
    let out = h.handle(Event::Configure { serial: 7 }).unwrap();
    assert_eq!(out, answer(&h, 7));
    assert_eq!(h.phase(), Phase::Committed);
    if let Request::Attach { layout, fill, .. } = &out[1] {
        assert_eq!(layout.width, 500);
        assert_eq!(layout.size, 1_000_000);
        assert_eq!(solid_frame(layout, *fill)[..4], [0xFF, 0x00, 0x00, 0xFF]);
    } else {
        panic!("second request is not an attach");
    }
}

#[test]
fn two_configure_cycles() {
    let mut h = started();
    let first = h.handle(Event::Configure { serial: 7 }).unwrap();
    let second = h.handle(Event::Configure { serial: 8 }).unwrap();
    assert_eq!(first, answer(&h, 7));
    assert_eq!(second, answer(&h, 8));
}

#[test]
fn configure_before_roles_is_a_sequence_error() {
    let mut h = window();
    assert_eq!(h.handle(Event::Configure { serial: 1 }), Err(SessionError::ProtocolSequence));
    assert_eq!(h.phase(), Phase::Created);
}

#[test]
fn ping_answered_in_every_phase() {
    let mut h = window();
    assert_eq!(h.handle(Event::Ping { serial: 3 }), Ok(vec![Request::Pong { serial: 3 }]));
    h.begin(true).unwrap();
    assert_eq!(h.handle(Event::Ping { serial: 4 }), Ok(vec![Request::Pong { serial: 4 }]));
    h.handle(Event::Configure { serial: 5 }).unwrap();
    assert_eq!(h.handle(Event::Ping { serial: 6 }), Ok(vec![Request::Pong { serial: 6 }]));
}

#[test]
fn nothing_presented_before_configure() {
    let mut h = started();
    let mut all = Vec::new();
    all.extend(h.handle(Event::Ping { serial: 1 }).unwrap());
    all.extend(h.handle(Event::DecorationConfigure { mode: DecorationMode::ClientSide }).unwrap());
    assert!(h.handle(Event::ToplevelState).is_err());
    assert_eq!(all, vec![Request::Pong { serial: 1 }]);
    assert_eq!(h.phase(), Phase::AwaitingConfigure);
}

#[test]
fn decoration_mode_recorded() {
    let mut h = started();
    assert_eq!(h.decoration(), None);
    h.handle(Event::DecorationConfigure { mode: DecorationMode::ServerSide }).unwrap();
    assert_eq!(h.decoration(), Some(DecorationMode::ServerSide));
}

#[test]
fn unhandled_events_reported() {
    let mut h = started();
    assert_eq!(
        h.handle(Event::ToplevelState),
        Err(SessionError::Unhandled(UnhandledEvent::ToplevelState))
    );
    assert_eq!(
        h.handle(Event::BufferRelease),
        Err(SessionError::Unhandled(UnhandledEvent::BufferRelease))
    );
}

#[test]
fn window_size_checked() {
    assert!(Handshake::new(0, 500, BLUE, String::new()).is_err());
}
