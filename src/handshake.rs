use vstd::prelude::*;
use crate::buffer::{BufferLayout, Color, fits_wire};
use crate::error::{SessionError, UnhandledEvent};

verus! {

/// Where a window's surface stands in the configure handshake.
///
/// A configure event moves the surface through "configured" (acknowledged,
/// a buffer being provisioned) to `Committed` within the handling of that
/// one event, so no event ever finds it in between.
#[derive(Clone, Copy, Debug, PartialEq, Eq)]
pub enum Phase {
    /// The surface exists; no role has been requested yet.
    Created,
    /// Roles are requested; the first configure has not come.
    AwaitingConfigure,
    /// The latest configure was acknowledged and answered with content.
    Committed,
}

/// How a window is decorated.
#[derive(Clone, Copy, Debug, PartialEq, Eq)]
pub enum DecorationMode {
    ClientSide,
    ServerSide,
}

/// An event that the server sends to the window's objects.
#[derive(Clone, Copy, Debug, PartialEq, Eq)]
pub enum Event {
    /// Liveness check of the window-manager base.
    Ping { serial: u32 },
    /// The surface role proposes a state, to be acknowledged.
    Configure { serial: u32 },
    /// The decoration mode actually in effect.
    DecorationConfigure { mode: DecorationMode },
    /// A window-state event of the toplevel.
    ToplevelState,
    /// The server no longer reads a buffer.
    BufferRelease,
}

/// A request that the client sends, in the order it must go out.
#[derive(Clone, Debug, PartialEq, Eq)]
pub enum Request {
    /// Create the surface from the compositor.
    CreateSurface,
    /// Give the surface its window-manager role object.
    GetXdgSurface,
    /// Make the role a toplevel window.
    GetToplevel,
    /// Title the toplevel.
    SetTitle { title: String },
    /// Create the toplevel's decoration object.
    GetToplevelDecoration,
    /// Declare the preferred decoration mode.
    SetDecorationMode { mode: DecorationMode },
    /// Acknowledge the configure event that carried `serial`.
    AckConfigure { serial: u32 },
    /// Provision a buffer of `layout` filled with `fill` and attach it at
    /// (`x`, `y`).
    Attach { layout: BufferLayout, fill: Color, x: i32, y: i32 },
    /// Apply the pending surface state.
    Commit,
    /// Answer the ping that carried `serial`.
    Pong { serial: u32 },
}

/// The state of a window's handshake.
pub struct HandshakeView {
    pub phase: Phase,
    pub layout: BufferLayout,
    pub fill: Color,
    pub title: Seq<char>,
    pub decoration: Option<DecorationMode>,
}

/// The requests that answer configure event `serial`: acknowledge it, then
/// attach a fresh buffer at the origin and commit.
pub open spec fn present(v: HandshakeView, serial: u32) -> Seq<Request> {
    seq![
        Request::AckConfigure { serial },
        Request::Attach { layout: v.layout, fill: v.fill, x: 0, y: 0 },
        Request::Commit,
    ]
}

/// What handling event `e` does to state `v`: the next state and the
/// requests to send, or the error that stops the handling.
pub open spec fn step(v: HandshakeView, e: Event) -> Result<(HandshakeView, Seq<Request>), SessionError> {
    match e {
        Event::Ping { serial } => Ok((v, seq![Request::Pong { serial }])),
        Event::Configure { serial } => {
            if v.phase is Created {
                Err(SessionError::ProtocolSequence)
            } else {
                Ok((HandshakeView { phase: Phase::Committed, ..v }, present(v, serial)))
            }
        },
        Event::DecorationConfigure { mode } => Ok(
            (HandshakeView { decoration: Some(mode), ..v }, Seq::empty()),
        ),
        Event::ToplevelState => Err(SessionError::Unhandled(UnhandledEvent::ToplevelState)),
        Event::BufferRelease => Err(SessionError::Unhandled(UnhandledEvent::BufferRelease)),
    }
}

/// The requests that handling `evs` in order sends from state `v`. An event
/// whose handling fails changes nothing and the next one is handled.
pub open spec fn run(v: HandshakeView, evs: Seq<Event>) -> Seq<Request>
    decreases evs.len(),
{
    if evs.len() == 0 {
        Seq::empty()
    } else {
        match step(v, evs[0]) {
            Ok((w, out)) => out + run(w, evs.drop_first()),
            Err(_) => run(v, evs.drop_first()),
        }
    }
}

/// The serials that the acknowledgements among `rs` carry, in order.
pub open spec fn ack_serials(rs: Seq<Request>) -> Seq<u32>
    decreases rs.len(),
{
    if rs.len() == 0 {
        Seq::empty()
    } else {
        let head = match rs[0] {
            Request::AckConfigure { serial } => seq![serial],
            _ => Seq::empty(),
        };
        head + ack_serials(rs.drop_first())
    }
}

/// The serials that the pongs among `rs` carry, in order.
pub open spec fn pong_serials(rs: Seq<Request>) -> Seq<u32>
    decreases rs.len(),
{
    if rs.len() == 0 {
        Seq::empty()
    } else {
        let head = match rs[0] {
            Request::Pong { serial } => seq![serial],
            _ => Seq::empty(),
        };
        head + pong_serials(rs.drop_first())
    }
}

/// The serial of `e` if it is a configure event.
pub open spec fn configure_head(e: Event) -> Seq<u32> {
    match e {
        Event::Configure { serial } => seq![serial],
        _ => Seq::empty(),
    }
}

/// The serial of `e` if it is a ping.
pub open spec fn ping_head(e: Event) -> Seq<u32> {
    match e {
        Event::Ping { serial } => seq![serial],
        _ => Seq::empty(),
    }
}

/// The serials of the configure events among `evs`, in order.
pub open spec fn configure_serials(evs: Seq<Event>) -> Seq<u32>
    decreases evs.len(),
{
    if evs.len() == 0 {
        Seq::empty()
    } else {
        configure_head(evs[0]) + configure_serials(evs.drop_first())
    }
}

/// The serials of the pings among `evs`, in order.
pub open spec fn ping_serials(evs: Seq<Event>) -> Seq<u32>
    decreases evs.len(),
{
    if evs.len() == 0 {
        Seq::empty()
    } else {
        ping_head(evs[0]) + ping_serials(evs.drop_first())
    }
}

/// An attach or a commit: a request that presents content.
pub open spec fn presents(r: Request) -> bool {
    r is Attach || r is Commit
}

proof fn lemma_ack_serials_concat(a: Seq<Request>, b: Seq<Request>)
    ensures
        ack_serials(a + b) == ack_serials(a) + ack_serials(b),
    decreases a.len(),
{
    if a.len() == 0 {
        assert(a + b =~= b);
    } else {
        assert((a + b).drop_first() =~= a.drop_first() + b);
        lemma_ack_serials_concat(a.drop_first(), b);
        let head = match a[0] {
            Request::AckConfigure { serial } => seq![serial],
            _ => Seq::<u32>::empty(),
        };
        assert(head + (ack_serials(a.drop_first()) + ack_serials(b)) =~= (head + ack_serials(
            a.drop_first(),
        )) + ack_serials(b));
    }
}

proof fn lemma_pong_serials_concat(a: Seq<Request>, b: Seq<Request>)
    ensures
        pong_serials(a + b) == pong_serials(a) + pong_serials(b),
    decreases a.len(),
{
    if a.len() == 0 {
        assert(a + b =~= b);
    } else {
        assert((a + b).drop_first() =~= a.drop_first() + b);
        lemma_pong_serials_concat(a.drop_first(), b);
        let head = match a[0] {
            Request::Pong { serial } => seq![serial],
            _ => Seq::<u32>::empty(),
        };
        assert(head + (pong_serials(a.drop_first()) + pong_serials(b)) =~= (head + pong_serials(
            a.drop_first(),
        )) + pong_serials(b));
    }
}

/// The acknowledgements and pongs in the answer to a single event.
proof fn lemma_step_serials(v: HandshakeView, e: Event)
    ensures
        step(v, e) matches Ok((w, out)) ==> {
            &&& pong_serials(out) == ping_head(e)
            &&& ack_serials(out) == configure_head(e)
            &&& !(w.phase is Created) || (v.phase is Created)
        },
{
    reveal_with_fuel(ack_serials, 4);
    reveal_with_fuel(pong_serials, 4);
    if let Ok((w, out)) = step(v, e) {
        match e {
            Event::Configure { serial } => {
                let p = present(v, serial);
                assert(p.drop_first() =~= seq![
                    Request::Attach { layout: v.layout, fill: v.fill, x: 0, y: 0 },
                    Request::Commit,
                ]);
                assert(p.drop_first().drop_first() =~= seq![Request::Commit]);
                assert(p.drop_first().drop_first().drop_first() =~= Seq::<Request>::empty());
                assert(ack_serials(out) =~= seq![serial]);
                assert(pong_serials(out) =~= Seq::<u32>::empty());
            },
            Event::Ping { serial } => {
                assert(out.drop_first() =~= Seq::<Request>::empty());
                assert(pong_serials(out) =~= seq![serial]);
                assert(ack_serials(out) =~= Seq::<u32>::empty());
            },
            _ => {
                assert(pong_serials(out) =~= Seq::<u32>::empty());
            },
        }
    }
}

/// Every ping is answered by a pong of the same serial, in the order the
/// pings came, whatever the surface is doing meanwhile.
pub proof fn lemma_every_ping_answered(v: HandshakeView, evs: Seq<Event>)
    ensures
        pong_serials(run(v, evs)) == ping_serials(evs),
    decreases evs.len(),
{
    if evs.len() > 0 {
        let e = evs[0];
        let rest = evs.drop_first();
        lemma_step_serials(v, e);
        match step(v, e) {
            Ok((w, out)) => {
                lemma_every_ping_answered(w, rest);
                lemma_pong_serials_concat(out, run(w, rest));
            },
            Err(_) => {
                lemma_every_ping_answered(v, rest);
                assert(ping_head(e) + ping_serials(rest) =~= ping_serials(rest));
            },
        }
    }
}

/// Once the roles are requested, every configure event is acknowledged
/// exactly once with its own serial, in the order the events came.
pub proof fn lemma_every_configure_acknowledged(v: HandshakeView, evs: Seq<Event>)
    requires
        !(v.phase is Created),
    ensures
        ack_serials(run(v, evs)) == configure_serials(evs),
    decreases evs.len(),
{
    if evs.len() > 0 {
        let e = evs[0];
        let rest = evs.drop_first();
        lemma_step_serials(v, e);
        match step(v, e) {
            Ok((w, out)) => {
                lemma_every_configure_acknowledged(w, rest);
                lemma_ack_serials_concat(out, run(w, rest));
            },
            Err(_) => {
                lemma_every_configure_acknowledged(v, rest);
                assert(configure_head(e) + configure_serials(rest) =~= configure_serials(rest));
            },
        }
    }
}

/// Until a configure event comes, no event leads to an attach or a commit.
pub proof fn lemma_no_content_before_configure(v: HandshakeView, evs: Seq<Event>)
    requires
        forall|i: int| 0 <= i < evs.len() ==> !(#[trigger] evs[i] is Configure),
    ensures
        forall|i: int| 0 <= i < run(v, evs).len() ==> !presents(#[trigger] run(v, evs)[i]),
    decreases evs.len(),
{
    if evs.len() > 0 {
        let e = evs[0];
        let rest = evs.drop_first();
        assert(!(evs[0] is Configure));
        assert forall|i: int| 0 <= i < rest.len() implies !(#[trigger] rest[i] is Configure) by {
            assert(rest[i] == evs[i + 1]);
        }
        match step(v, e) {
            Ok((w, out)) => {
                lemma_no_content_before_configure(w, rest);
                assert forall|i: int| 0 <= i < out.len() implies !presents(#[trigger] out[i]) by {}
                let all = out + run(w, rest);
                assert(run(v, evs) == all);
                assert forall|i: int| 0 <= i < all.len() implies !presents(#[trigger] all[i]) by {
                    if i >= out.len() {
                        assert(all[i] == run(w, rest)[i - out.len()]);
                    } else {
                        assert(all[i] == out[i]);
                    }
                }
            },
            Err(_) => {
                lemma_no_content_before_configure(v, rest);
                assert(run(v, evs) == run(v, rest));
            },
        }
    }
}

/// Two configure events in a row each get their own complete answer, in
/// order: acknowledge, attach, commit, then the same for the second.
pub proof fn lemma_two_configure_cycles(v: HandshakeView, first: u32, second: u32)
    requires
        !(v.phase is Created),
    ensures
        run(v, seq![Event::Configure { serial: first }, Event::Configure { serial: second }])
            == present(v, first) + present(v, second),
{
    let evs = seq![Event::Configure { serial: first }, Event::Configure { serial: second }];
    reveal_with_fuel(run, 3);
    assert(evs.drop_first() =~= seq![Event::Configure { serial: second }]);
    assert(evs.drop_first().drop_first() =~= Seq::<Event>::empty());
    let w = HandshakeView { phase: Phase::Committed, ..v };
    assert(present(w, second) =~= present(v, second));
    assert(present(w, second) + Seq::<Request>::empty() =~= present(w, second));
}

/// The handshake of one toplevel window drawn from shared memory.
pub struct Handshake {
    phase: Phase,
    layout: BufferLayout,
    fill: Color,
    title: String,
    decoration: Option<DecorationMode>,
}

impl View for Handshake {
    type V = HandshakeView;

    closed spec fn view(&self) -> HandshakeView {
        HandshakeView {
            phase: self.phase,
            layout: self.layout,
            fill: self.fill,
            title: self.title@,
            decoration: self.decoration,
        }
    }
}

impl Handshake {
    /// Every frame has a layout that the wire can carry.
    pub open spec fn wf(&self) -> bool {
        self@.layout.wf()
    }

    /// A window of `width` by `height` pixels, each frame filled with
    /// `fill`, titled `title`.
    pub fn new(width: u32, height: u32, fill: Color, title: String) -> (r: Result<
        Handshake,
        SessionError,
    >)
        ensures
            r is Ok <==> fits_wire(width as int, height as int),
            r is Err ==> r == Err::<Handshake, SessionError>(SessionError::Allocation),
            r matches Ok(h) ==> {
                &&& h.wf()
                &&& h@.phase == Phase::Created
                &&& h@.layout.width == width
                &&& h@.layout.height == height
                &&& h@.fill == fill
                &&& h@.title == title@
                &&& h@.decoration is None
            },
    {
        match BufferLayout::new(width, height) {
            Ok(layout) => Ok(Handshake { phase: Phase::Created, layout, fill, title, decoration: None }),
            Err(e) => Err(e),
        }
    }

    /// The phase the surface is in.
    pub fn phase(&self) -> (r: Phase)
        ensures
            r == self@.phase,
    {
        self.phase
    }

    /// The decoration mode that the server last reported, if any.
    pub fn decoration(&self) -> (r: Option<DecorationMode>)
        ensures
            r == self@.decoration,
    {
        self.decoration
    }

    /// The layout of every frame.
    pub fn layout(&self) -> (r: BufferLayout)
        ensures
            r == self@.layout,
    {
        self.layout
    }

    /// Requests the window's roles: creates the surface, gives it the
    /// toplevel role and its title, asks for server-side decoration when
    /// `decorations` is set, and commits the surface with no buffer so
    /// that the server sends the first configure.
    pub fn begin(&mut self, decorations: bool) -> (r: Result<Vec<Request>, SessionError>)
        requires
            old(self).wf(),
        ensures
            final(self).wf(),
            r is Ok <==> old(self)@.phase is Created,
            r is Err ==> {
                &&& r == Err::<Vec<Request>, SessionError>(SessionError::ProtocolSequence)
                &&& final(self)@ == old(self)@
            },
            r matches Ok(v) ==> {
                &&& final(self)@ == (HandshakeView { phase: Phase::AwaitingConfigure, ..old(self)@ })
                &&& v@.len() == if decorations { 7int } else { 5int }
                &&& v@[0] == Request::CreateSurface
                &&& v@[1] == Request::GetXdgSurface
                &&& v@[2] == Request::GetToplevel
                &&& v@[3] matches Request::SetTitle { title } && title@ == old(self)@.title
                &&& decorations ==> v@[4] == Request::GetToplevelDecoration
                &&& decorations ==> v@[5] == (Request::SetDecorationMode {
                    mode: DecorationMode::ServerSide,
                })
                &&& v@.last() == Request::Commit
            },
    {
        if !matches!(self.phase, Phase::Created) {
            return Err(SessionError::ProtocolSequence);
        }
        let mut out: Vec<Request> = Vec::new();
        out.push(Request::CreateSurface);
        out.push(Request::GetXdgSurface);
        out.push(Request::GetToplevel);
        let title = self.title.clone();
        out.push(Request::SetTitle { title });
        if decorations {
            out.push(Request::GetToplevelDecoration);
            out.push(Request::SetDecorationMode { mode: DecorationMode::ServerSide });
        }
        out.push(Request::Commit);
        self.phase = Phase::AwaitingConfigure;
        Ok(out)
    }

    /// Handles one event: a ping is answered with a pong of the same
    /// serial in every phase; a configure is acknowledged with its own
    /// serial and answered with a fresh frame, attached and committed; a
    /// decoration configure is recorded; toplevel state and buffer release
    /// are reported as unhandled. A failed handling changes nothing.
    pub fn handle(&mut self, e: Event) -> (r: Result<Vec<Request>, SessionError>)
        requires
            old(self).wf(),
        ensures
            final(self).wf(),
            r matches Ok(out) ==> step(old(self)@, e) == Ok::<
                (HandshakeView, Seq<Request>),
                SessionError,
            >((final(self)@, out@)),
            r matches Err(err) ==> step(old(self)@, e) == Err::<
                (HandshakeView, Seq<Request>),
                SessionError,
            >(err) && final(self)@ == old(self)@,
    {
        match e {
            Event::Ping { serial } => {
                let mut out: Vec<Request> = Vec::new();
                out.push(Request::Pong { serial });
                assert(out@ =~= seq![Request::Pong { serial }]);
                Ok(out)
            },
            Event::Configure { serial } => {
                if matches!(self.phase, Phase::Created) {
                    return Err(SessionError::ProtocolSequence);
                }
                let ghost before = self@;
                let mut out: Vec<Request> = Vec::new();
                out.push(Request::AckConfigure { serial });
                out.push(Request::Attach { layout: self.layout, fill: self.fill, x: 0, y: 0 });
                out.push(Request::Commit);
                self.phase = Phase::Committed;
                assert(out@ =~= present(before, serial));
                Ok(out)
            },
            Event::DecorationConfigure { mode } => {
                self.decoration = Some(mode);
                let out: Vec<Request> = Vec::new();
                assert(out@ =~= Seq::<Request>::empty());
                Ok(out)
            },
            Event::ToplevelState => Err(SessionError::Unhandled(UnhandledEvent::ToplevelState)),
            Event::BufferRelease => Err(SessionError::Unhandled(UnhandledEvent::BufferRelease)),
        }
    }
}

} // verus!
