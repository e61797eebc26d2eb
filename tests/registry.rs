use wl_session::error::{SessionError, UnhandledEvent};
use wl_session::registry::{BindRequest, Capability, Registry};

fn advertise(r: &mut Registry, name: u32, interface: &str, version: u32) {
    r.on_global(name, String::from(interface), version);
}

#[test]
fn round_trip_binds_three_capabilities() {
    let mut r = Registry::new();
    advertise(&mut r, 1, "wl_compositor", 4);
    advertise(&mut r, 2, "wl_shm", 1);
    advertise(&mut r, 3, "xdg_wm_base", 1);
    let binds = r.bind_session().unwrap();
    assert_eq!(
        binds,
        vec![
            BindRequest { name: 1, capability: Capability::Compositor, version: 4 },
            BindRequest { name: 2, capability: Capability::SharedMemory, version: 1 },
            BindRequest { name: 3, capability: Capability::WindowManagerBase, version: 1 },
        ]
    );
    assert_eq!(r.len(), 3);
}

#[test]
fn decoration_manager_bound_when_advertised() {
    let mut r = Registry::new();
    advertise(&mut r, 9, "zxdg_decoration_manager_v1", 2);
    advertise(&mut r, 1, "wl_compositor", 6);
    advertise(&mut r, 5, "wl_seat", 9);
    advertise(&mut r, 2, "wl_shm", 2);
    advertise(&mut r, 3, "xdg_wm_base", 7);
    let binds = r.bind_session().unwrap();
    assert_eq!(
        binds,
        vec![
            BindRequest { name: 1, capability: Capability::Compositor, version: 4 },
            BindRequest { name: 2, capability: Capability::SharedMemory, version: 1 },
            BindRequest { name: 3, capability: Capability::WindowManagerBase, version: 1 },
            BindRequest { name: 9, capability: Capability::DecorationManager, version: 1 },
        ]
    );
}

#[test]
fn bind_caps_version_at_advertised() {
    let mut r = Registry::new();
    advertise(&mut r, 4, "wl_compositor", 2);
    assert_eq!(
        r.bind(Capability::Compositor),
        Ok(BindRequest { name: 4, capability: Capability::Compositor, version: 2 })
    );
}

#[test]
fn bind_caps_version_at_client_maximum() {
    let mut r = Registry::new();
    advertise(&mut r, 4, "wl_compositor", 6);
    let b = r.bind(Capability::Compositor).unwrap();
    assert_eq!(b.version, 4);
    assert_eq!(b.version, Capability::Compositor.max_version());
}

#[test]
fn bind_unadvertised_fails() {
    let mut r = Registry::new();
    advertise(&mut r, 1, "wl_compositor", 4);
    assert_eq!(
        r.bind(Capability::SharedMemory),
        Err(SessionError::MissingCapability(Capability::SharedMemory))
    );
}

#[test]
fn later_advertisement_replaces_earlier() {
    let mut r = Registry::new();
    advertise(&mut r, 1, "wl_shm", 1);
    advertise(&mut r, 7, "wl_shm", 1);
    assert_eq!(r.len(), 1);
    assert_eq!(r.bind(Capability::SharedMemory).unwrap().name, 7);
}

#[test]
fn missing_required_capability_reported_first() {
    let mut r = Registry::new();
    advertise(&mut r, 1, "wl_compositor", 4);
    advertise(&mut r, 3, "xdg_wm_base", 1);
    assert_eq!(
        r.bind_session(),
        Err(SessionError::MissingCapability(Capability::SharedMemory))
    );
    let mut empty = Registry::new();
    assert_eq!(
        empty.bind_session(),
        Err(SessionError::MissingCapability(Capability::Compositor))
    );
    let mut no_wm = Registry::new();
    advertise(&mut no_wm, 1, "wl_compositor", 4);
    advertise(&mut no_wm, 2, "wl_shm", 1);
    assert_eq!(
        no_wm.bind_session(),
        Err(SessionError::MissingCapability(Capability::WindowManagerBase))
    );
}

#[test]
fn removing_unbound_global_is_a_no_op() {
    let mut r = Registry::new();
    advertise(&mut r, 1, "wl_compositor", 4);
    advertise(&mut r, 2, "wl_output", 3);
    r.bind(Capability::Compositor).unwrap();
    assert_eq!(r.on_global_remove(2), Ok(()));
    assert_eq!(r.on_global_remove(42), Ok(()));
    assert_eq!(r.len(), 2);
}

#[test]
fn removing_bound_global_is_reported() {
    let mut r = Registry::new();
    advertise(&mut r, 1, "wl_compositor", 4);
    assert_eq!(r.on_global_remove(1), Ok(()));
    r.bind(Capability::Compositor).unwrap();
    assert_eq!(
        r.on_global_remove(1),
        Err(SessionError::Unhandled(UnhandledEvent::GlobalRemoved { name: 1 }))
    );
}

#[test]
fn interface_names() {
    assert_eq!(Capability::Compositor.interface(), "wl_compositor");
    assert_eq!(Capability::SharedMemory.interface(), "wl_shm");
    assert_eq!(Capability::WindowManagerBase.interface(), "xdg_wm_base");
    assert_eq!(Capability::DecorationManager.interface(), "zxdg_decoration_manager_v1");
}

#[test]
fn error_phases() {
    assert_eq!(SessionError::Allocation.phase(), "allocation");
    assert_eq!(SessionError::MissingCapability(Capability::Compositor).phase(), "binding");
    assert_eq!(SessionError::ProtocolSequence.phase(), "handshake");
    assert_eq!(SessionError::Unhandled(UnhandledEvent::ToplevelState).phase(), "handshake");
}

#[test]
fn only_window_state_and_release_are_not_fatal() {
    assert!(!SessionError::Unhandled(UnhandledEvent::ToplevelState).is_fatal());
    assert!(!SessionError::Unhandled(UnhandledEvent::BufferRelease).is_fatal());
    assert!(SessionError::Unhandled(UnhandledEvent::GlobalRemoved { name: 3 }).is_fatal());
    assert!(SessionError::ProtocolSequence.is_fatal());
    assert!(SessionError::Allocation.is_fatal());
    assert!(SessionError::MissingCapability(Capability::SharedMemory).is_fatal());
}
