use vstd::prelude::*;
use vstd::string::StringExecFns;
use crate::error::{SessionError, UnhandledEvent};

verus! {

/// A capability that the session is built on, each unlocked by binding the
/// global of one interface.
#[derive(Clone, Copy, Debug, PartialEq, Eq)]
pub enum Capability {
    /// Surface creation (`wl_compositor`).
    Compositor,
    /// Pool and buffer creation (`wl_shm`).
    SharedMemory,
    /// Surface roles and the liveness check (`xdg_wm_base`).
    WindowManagerBase,
    /// Server-side decoration negotiation (`zxdg_decoration_manager_v1`);
    /// optional.
    DecorationManager,
}

/// The interface name that advertises each capability.
pub open spec fn interface_of(c: Capability) -> Seq<char> {
    match c {
        Capability::Compositor => "wl_compositor"@,
        Capability::SharedMemory => "wl_shm"@,
        Capability::WindowManagerBase => "xdg_wm_base"@,
        Capability::DecorationManager => "zxdg_decoration_manager_v1"@,
    }
}

/// The highest version of each interface that this client understands.
pub open spec fn client_max(c: Capability) -> u32 {
    match c {
        Capability::Compositor => 4,
        Capability::SharedMemory => 1,
        Capability::WindowManagerBase => 1,
        Capability::DecorationManager => 1,
    }
}

impl Capability {
    /// The interface name of the global that provides this capability.
    pub fn interface(&self) -> (r: &'static str)
        ensures
            r@ == interface_of(*self),
    {
        proof {
            reveal_strlit("wl_compositor");
            reveal_strlit("wl_shm");
            reveal_strlit("xdg_wm_base");
            reveal_strlit("zxdg_decoration_manager_v1");
        }
        match self {
            Capability::Compositor => "wl_compositor",
            Capability::SharedMemory => "wl_shm",
            Capability::WindowManagerBase => "xdg_wm_base",
            Capability::DecorationManager => "zxdg_decoration_manager_v1",
        }
    }

    /// The highest version of the interface that this client understands.
    pub fn max_version(&self) -> (r: u32)
        ensures
            r == client_max(*self),
    {
        match self {
            Capability::Compositor => 4,
            Capability::SharedMemory => 1,
            Capability::WindowManagerBase => 1,
            Capability::DecorationManager => 1,
        }
    }
}

/// A global as the registry holds it.
pub struct GlobalView {
    pub name: u32,
    pub interface: Seq<char>,
    pub version: u32,
    pub bound: bool,
}

/// A request to bind global `name` as `capability` at `version`.
#[derive(Clone, Copy, Debug, PartialEq, Eq)]
pub struct BindRequest {
    pub name: u32,
    pub capability: Capability,
    pub version: u32,
}

/// No two globals share an interface.
pub open spec fn unique_interfaces(s: Seq<GlobalView>) -> bool {
    forall|i: int, j: int|
        0 <= i < s.len() && 0 <= j < s.len() && #[trigger] s[i].interface == #[trigger] s[j].interface
            ==> i == j
}

/// Some global of interface `iface` has been observed.
pub open spec fn has_interface(s: Seq<GlobalView>, iface: Seq<char>) -> bool {
    exists|i: int| 0 <= i < s.len() && #[trigger] s[i].interface == iface
}

/// Where the global of interface `iface` stands.
pub open spec fn position(s: Seq<GlobalView>, iface: Seq<char>) -> int {
    choose|i: int| 0 <= i < s.len() && #[trigger] s[i].interface == iface
}

/// The registry after the server advertises global `name`: a new interface
/// is appended, a known one has its global replaced in place.
pub open spec fn observe(s: Seq<GlobalView>, name: u32, iface: Seq<char>, version: u32) -> Seq<
    GlobalView,
> {
    let g = GlobalView { name, interface: iface, version, bound: false };
    if has_interface(s, iface) {
        s.update(position(s, iface), g)
    } else {
        s.push(g)
    }
}

/// The request that binds global `g` as `c`: never above what either side
/// understands.
pub open spec fn bind_of(g: GlobalView, c: Capability) -> BindRequest {
    BindRequest { name: g.name, capability: c, version: capped_version(g.version, c) }
}

/// The lower of an advertised version and the client's maximum for `c`.
pub open spec fn capped_version(version: u32, c: Capability) -> u32 {
    if version <= client_max(c) {
        version
    } else {
        client_max(c)
    }
}

/// The request that binding `c` makes on registry contents `s`.
pub open spec fn bind_in(s: Seq<GlobalView>, c: Capability) -> BindRequest {
    bind_of(s[position(s, interface_of(c))], c)
}

/// The registry after binding `c`, which must have been observed.
pub open spec fn mark_bound(s: Seq<GlobalView>, c: Capability) -> Seq<GlobalView> {
    let p = position(s, interface_of(c));
    s.update(p, GlobalView { bound: true, ..s[p] })
}

/// What binding the session asks for, given the globals observed: the three
/// required capabilities, then the decoration manager when it is there.
pub open spec fn session_binds(s: Seq<GlobalView>) -> Seq<BindRequest> {
    let req = seq![
        bind_in(s, Capability::Compositor),
        bind_in(s, Capability::SharedMemory),
        bind_in(s, Capability::WindowManagerBase),
    ];
    if has_interface(s, interface_of(Capability::DecorationManager)) {
        req.push(bind_in(s, Capability::DecorationManager))
    } else {
        req
    }
}

/// Some bound global carries `name`.
pub open spec fn bound_name(s: Seq<GlobalView>, name: u32) -> bool {
    exists|i: int| 0 <= i < s.len() && #[trigger] s[i].name == name && s[i].bound
}

/// Binding changes nothing but the flag of the global bound: every
/// interface stays where it was, with its name and version.
pub proof fn lemma_mark_bound_keeps(s: Seq<GlobalView>, c: Capability)
    requires
        unique_interfaces(s),
        has_interface(s, interface_of(c)),
    ensures
        unique_interfaces(mark_bound(s, c)),
        forall|iface: Seq<char>|
            #[trigger] has_interface(mark_bound(s, c), iface) == has_interface(s, iface),
        forall|d: Capability|
            has_interface(s, interface_of(d)) ==> bind_of(
                mark_bound(s, c)[position(mark_bound(s, c), interface_of(d))],
                d,
            ) == #[trigger] bind_of(s[position(s, interface_of(d))], d),
{
    let t = mark_bound(s, c);
    let p = position(s, interface_of(c));
    assert(s[p].interface == interface_of(c));
    assert forall|k: int| 0 <= k < s.len() implies #[trigger] t[k].interface == s[k].interface
        && t[k].name == s[k].name && t[k].version == s[k].version by {}
    assert forall|iface: Seq<char>| #[trigger]
        has_interface(t, iface) == has_interface(s, iface) by {
        if has_interface(s, iface) {
            let k = choose|k: int| 0 <= k < s.len() && #[trigger] s[k].interface == iface;
            assert(t[k].interface == iface);
        }
        if has_interface(t, iface) {
            let k = choose|k: int| 0 <= k < t.len() && #[trigger] t[k].interface == iface;
            assert(s[k].interface == iface);
        }
    }
    assert forall|d: Capability| has_interface(s, interface_of(d)) implies bind_of(
        t[position(t, interface_of(d))],
        d,
    ) == #[trigger] bind_of(s[position(s, interface_of(d))], d) by {
        let q = position(s, interface_of(d));
        assert(s[q].interface == interface_of(d));
        assert(t[q].interface == interface_of(d));
        let q2 = position(t, interface_of(d));
        assert(t[q2].interface == interface_of(d));
        assert(s[q2].interface == s[q].interface);
    }
}

/// Binding a capability succeeds exactly when a global of its interface was
/// observed: after the server advertises `name` of `c`'s interface at
/// `version`, binding `c` names that global and asks for the lower of
/// `version` and the client's maximum; advertising other interfaces leaves
/// the outcome as it was.
pub proof fn lemma_bind_after_observe(
    s: Seq<GlobalView>,
    name: u32,
    iface: Seq<char>,
    version: u32,
    c: Capability,
)
    requires
        unique_interfaces(s),
    ensures
        unique_interfaces(observe(s, name, iface, version)),
        has_interface(observe(s, name, iface, version), interface_of(c)) <==> (has_interface(
            s,
            interface_of(c),
        ) || iface == interface_of(c)),
        iface == interface_of(c) ==> bind_in(observe(s, name, iface, version), c) == (
        BindRequest { name, capability: c, version: capped_version(version, c) }),
{
    let t = observe(s, name, iface, version);
    let g = GlobalView { name, interface: iface, version, bound: false };
    if has_interface(s, iface) {
        let p = position(s, iface);
        assert(s[p].interface == iface);
        assert forall|k: int| 0 <= k < s.len() implies #[trigger] t[k].interface
            == s[k].interface by {}
    } else {
        assert forall|k: int| 0 <= k < s.len() implies #[trigger] t[k].interface
            == s[k].interface by {}
        assert(t[s.len() as int] == g);
    }
    assert(unique_interfaces(t));
    let ic = interface_of(c);
    if has_interface(s, ic) {
        let k = choose|k: int| 0 <= k < s.len() && #[trigger] s[k].interface == ic;
        assert(t[k].interface == ic);
    }
    if iface == ic {
        let p = if has_interface(s, iface) {
            position(s, iface)
        } else {
            s.len() as int
        };
        assert(t[p] == g);
        assert(t[p].interface == ic);
        assert(has_interface(t, ic));
        let q = position(t, ic);
        assert(t[q].interface == ic);
        assert(t[q].interface == t[p].interface);
    }
    if has_interface(t, ic) {
        let k = choose|k: int| 0 <= k < t.len() && #[trigger] t[k].interface == ic;
        if k < s.len() && iface != ic {
            assert(s[k].interface == ic);
        }
    }
}

struct Entry {
    name: u32,
    interface: String,
    version: u32,
    bound: bool,
}

/// The globals that the server has advertised, in order of first
/// advertisement, at most one per interface.
pub struct Registry {
    entries: Vec<Entry>,
}

impl View for Registry {
    type V = Seq<GlobalView>;

    closed spec fn view(&self) -> Seq<GlobalView> {
        Seq::new(
            self.entries@.len(),
            |i: int|
                GlobalView {
                    name: self.entries@[i].name,
                    interface: self.entries@[i].interface@,
                    version: self.entries@[i].version,
                    bound: self.entries@[i].bound,
                },
        )
    }
}

impl Registry {
    /// At most one global per interface.
    pub open spec fn wf(&self) -> bool {
        unique_interfaces(self@)
    }

    /// An empty registry.
    pub fn new() -> (r: Registry)
        ensures
            r@ == Seq::<GlobalView>::empty(),
            r.wf(),
    {
        let r = Registry { entries: Vec::new() };
        assert(r@ =~= Seq::<GlobalView>::empty());
        r
    }

    /// The number of interfaces observed.
    pub fn len(&self) -> (r: usize)
        ensures
            r == self@.len(),
    {
        self.entries.len()
    }

    /// Where the global of interface `iface` stands, if one was observed.
    fn find(&self, iface: &String) -> (r: Option<usize>)
        requires
            self.wf(),
        ensures
            r is None <==> !has_interface(self@, iface@),
            r matches Some(i) ==> i == position(self@, iface@) && i < self@.len(),
    {
        let mut i: usize = 0;
        while i < self.entries.len()
            invariant
                self.wf(),
                i <= self.entries@.len(),
                forall|k: int| 0 <= k < i ==> #[trigger] self@[k].interface != iface@,
            decreases self.entries@.len() - i,
        {
            if self.entries[i].interface == *iface {
                assert(self@[i as int].interface == iface@);
                let ghost p = position(self@, iface@);
                assert(self@[p].interface == iface@);
                assert(self@[i as int].interface == self@[p].interface);
                return Some(i);
            }
            i = i + 1;
        }
        None
    }

    /// Records global `name` of `interface` at `version`, replacing any
    /// earlier global of the same interface.
    pub fn on_global(&mut self, name: u32, interface: String, version: u32)
        requires
            old(self).wf(),
        ensures
            final(self).wf(),
            final(self)@ == observe(old(self)@, name, interface@, version),
    {
        let ghost iface = interface@;
        let found = self.find(&interface);
        let entry = Entry { name, interface, version, bound: false };
        let ghost g = GlobalView { name, interface: iface, version, bound: false };
        match found {
            Some(i) => {
                self.entries.set(i, entry);
                assert(self@ =~= old(self)@.update(i as int, g));
            },
            None => {
                self.entries.push(entry);
                assert(self@ =~= old(self)@.push(g));
            },
        }
    }

    /// Binds `c`: fails unless a global of its interface was observed, and
    /// asks for the lower of the advertised version and the client's own.
    pub fn bind(&mut self, c: Capability) -> (r: Result<BindRequest, SessionError>)
        requires
            old(self).wf(),
        ensures
            final(self).wf(),
            r is Ok <==> has_interface(old(self)@, interface_of(c)),
            r matches Ok(b) ==> {
                &&& b == bind_in(old(self)@, c)
                &&& final(self)@ == mark_bound(old(self)@, c)
            },
            r is Err ==> {
                &&& r == Err::<BindRequest, SessionError>(SessionError::MissingCapability(c))
                &&& final(self)@ == old(self)@
            },
    {
        let iface = String::from_str(c.interface());
        match self.find(&iface) {
            None => Err(SessionError::MissingCapability(c)),
            Some(i) => {
                let max = c.max_version();
                let v = self.entries[i].version;
                let version = if v <= max {
                    v
                } else {
                    max
                };
                let name = self.entries[i].name;
                let ghost before = self@;
                let mut entry = self.entries.remove(i);
                entry.bound = true;
                self.entries.insert(i, entry);
                assert(self@ =~= mark_bound(before, c));
                Ok(BindRequest { name, capability: c, version })
            },
        }
    }

    /// Binds what the session needs, in order: the compositor, shared
    /// memory and the window-manager base, which are required, then the
    /// decoration manager if it was advertised. Nothing is bound unless all
    /// required ones were advertised; the first one missing is reported.
    pub fn bind_session(&mut self) -> (r: Result<Vec<BindRequest>, SessionError>)
        requires
            old(self).wf(),
        ensures
            final(self).wf(),
            r is Ok <==> {
                &&& has_interface(old(self)@, interface_of(Capability::Compositor))
                &&& has_interface(old(self)@, interface_of(Capability::SharedMemory))
                &&& has_interface(old(self)@, interface_of(Capability::WindowManagerBase))
            },
            r is Err ==> final(self)@ == old(self)@,
            !has_interface(old(self)@, interface_of(Capability::Compositor)) ==> r == Err::<
                Vec<BindRequest>,
                SessionError,
            >(SessionError::MissingCapability(Capability::Compositor)),
            has_interface(old(self)@, interface_of(Capability::Compositor)) && !has_interface(
                old(self)@,
                interface_of(Capability::SharedMemory),
            ) ==> r == Err::<Vec<BindRequest>, SessionError>(
                SessionError::MissingCapability(Capability::SharedMemory),
            ),
            has_interface(old(self)@, interface_of(Capability::Compositor)) && has_interface(
                old(self)@,
                interface_of(Capability::SharedMemory),
            ) && !has_interface(old(self)@, interface_of(Capability::WindowManagerBase)) ==> r
                == Err::<Vec<BindRequest>, SessionError>(
                SessionError::MissingCapability(Capability::WindowManagerBase),
            ),
            r matches Ok(v) ==> v@ == session_binds(old(self)@),
    {
        let c = String::from_str(Capability::Compositor.interface());
        if self.find(&c).is_none() {
            return Err(SessionError::MissingCapability(Capability::Compositor));
        }
        let m = String::from_str(Capability::SharedMemory.interface());
        if self.find(&m).is_none() {
            return Err(SessionError::MissingCapability(Capability::SharedMemory));
        }
        let w = String::from_str(Capability::WindowManagerBase.interface());
        if self.find(&w).is_none() {
            return Err(SessionError::MissingCapability(Capability::WindowManagerBase));
        }
        let ghost s0 = self@;
        let mut out: Vec<BindRequest> = Vec::new();
        let b = self.bind(Capability::Compositor);
        proof {
            lemma_mark_bound_keeps(s0, Capability::Compositor);
        }
        let ghost s1 = self@;
        if let Ok(b) = b {
            out.push(b);
        }
        let b = self.bind(Capability::SharedMemory);
        proof {
            lemma_mark_bound_keeps(s1, Capability::SharedMemory);
        }
        let ghost s2 = self@;
        if let Ok(b) = b {
            out.push(b);
        }
        let b = self.bind(Capability::WindowManagerBase);
        proof {
            lemma_mark_bound_keeps(s2, Capability::WindowManagerBase);
        }
        let ghost s3 = self@;
        if let Ok(b) = b {
            out.push(b);
        }
        let b = self.bind(Capability::DecorationManager);
        if let Ok(b) = b {
            out.push(b);
        }
        proof {
            let d = Capability::DecorationManager;
            if has_interface(s0, interface_of(d)) {
                assert(bind_of(s3[position(s3, interface_of(d))], d) == bind_of(
                    s0[position(s0, interface_of(d))],
                    d,
                ));
            }
            assert(out@ =~= session_binds(s0));
        }
        Ok(out)
    }

    /// Handles the server withdrawing global `name`: nothing to do for a
    /// global that was never bound; for a bound one the event is reported.
    pub fn on_global_remove(&self, name: u32) -> (r: Result<(), SessionError>)
        ensures
            r is Err <==> bound_name(self@, name),
            r is Err ==> r == Err::<(), SessionError>(
                SessionError::Unhandled(UnhandledEvent::GlobalRemoved { name }),
            ),
    {
        let mut i: usize = 0;
        while i < self.entries.len()
            invariant
                i <= self.entries@.len(),
                forall|k: int| 0 <= k < i ==> !(#[trigger] self@[k].name == name && self@[k].bound),
            decreases self.entries@.len() - i,
        {
            if self.entries[i].name == name && self.entries[i].bound {
                assert(self@[i as int].name == name);
                return Err(SessionError::Unhandled(UnhandledEvent::GlobalRemoved { name }));
            }
            i = i + 1;
        }
        Ok(())
    }
}

} // verus!
