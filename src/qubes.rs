//! The window registry and the handling of the daemon's `Configure` events.
use vstd::prelude::*;

use crate::proto::{Configure, Outbound, Rectangle};
use crate::shell::{padded_title, title_message, SurfaceData};

verus! {

/// The xdg-shell role of a surface: a toplevel or a popup handle.
pub enum Kind<T, P> {
    Toplevel(T),
    Popup(P),
}

/// What the registry keeps for one window.
pub struct QubesBackendData<T, P> {
    /// The role of the surface shown in the window.
    pub surface: Kind<T, P>,
    /// Whether a configure has been sent to the client.
    pub has_configured: bool,
    /// The top-left corner last advertised by the daemon.
    pub coordinates: (i32, i32),
}

/// The agent's window state: the id allocator, the size of its own window,
/// and the registry of client windows ordered by id.
pub struct QubesData<T, P> {
    wid: u32,
    last_width: u32,
    last_height: u32,
    map: Vec<(u32, QubesBackendData<T, P>)>,
}

/// What the agent does on a daemon `Configure`, in this order: reallocate
/// its own framebuffer, fill part of it with the shade, send `messages` to the
/// daemon, pend `client_size` on the client's role and, where
/// `send_to_client` holds, send the role a configure.
pub struct ConfigureOutcome {
    /// New size of the agent's own framebuffer.
    pub realloc: Option<(u32, u32)>,
    /// Pixels of the agent's own framebuffer to fill with `SHADE`: first
    /// pixel and count.
    pub fill: Option<(u64, u64)>,
    pub messages: Vec<Outbound>,
    pub client_size: Option<(u32, u32)>,
    pub send_to_client: bool,
    /// The top-left corner to record in the surface's own state.
    pub placement: Option<(u32, u32)>,
}

/// The pixel value that marks the agent's own window as alive.
pub const SHADE: u32 = 0xFF00;

/// The size that a client is asked for: none before its first configure,
/// the daemon's afterwards.
pub open spec fn size_for_client(has_configured: bool, m: Configure) -> (u32, u32) {
    if has_configured {
        (m.rectangle.width, m.rectangle.height)
    } else {
        (0, 0)
    }
}

/// The echo that makes the daemon redraw: the configure itself, then the
/// image of its rectangle.
pub open spec fn echo(window: u32, m: Configure) -> Seq<Outbound> {
    seq![Outbound::Configure { window, configure: m }, Outbound::ShmImage { window, rectangle: m.rectangle }]
}

/// The part of the agent's own window that shows the shade: the middle half
/// of its lines, as first pixel and count.
pub open spec fn shade_span(width: u32, height: u32) -> (u64, u64) {
    ((width * (height / 4)) as u64, (width * (height / 2)) as u64)
}

/// Placement as the registry keeps it: each coordinate read as a signed value.
pub open spec fn placement(r: Rectangle) -> (i32, i32) {
    (r.x as i32, r.y as i32)
}

/// The registry's entry for a toplevel that was just created.
pub open spec fn fresh_toplevel<T, P>(surface: T) -> QubesBackendData<T, P> {
    QubesBackendData { surface: Kind::Toplevel(surface), has_configured: false, coordinates: (0, 0) }
}

/// What a daemon `Close` does.
#[derive(Clone, Copy, Debug, PartialEq, Eq, Structural)]
pub enum CloseAction {
    /// The agent's own window was closed: the agent stops.
    Exit,
    /// The toplevel is asked to close.
    Close,
    /// The popup is dismissed.
    PopupDone,
    /// The window is not known.
    Ignore,
}

pub open spec fn at_least_one_spec(v: i32) -> u32 {
    if v < 1 { 1 } else { v as u32 }
}

pub(crate) fn at_least_one(v: i32) -> (r: u32)
    ensures
        r == at_least_one_spec(v),
{
    if v < 1 { 1 } else { v as u32 }
}

/// The messages that create and map a toplevel's window.
pub open spec fn create_messages(window: u32, size: Option<(i32, i32)>) -> Seq<Outbound> {
    let (w, h) = match size {
        Some((w, h)) => (w, h),
        None => (1i32, 1i32),
    };
    let rectangle = Rectangle { x: 0, y: 0, width: at_least_one_spec(w), height: at_least_one_spec(h) };
    seq![
        Outbound::Create { window, rectangle, parent: None, override_redirect: 0 },
        Outbound::Configure { window, configure: Configure { rectangle, override_redirect: 0 } },
        Outbound::MapInfo { window, override_redirect: 0, transient_for: 0 },
    ]
}

/// Every entry of `post` is an entry of `pre`: ids being unique, the
/// windows that remain keep their surface, flag and placement.
pub open spec fn kept_entries<T, P>(pre: QubesData<T, P>, post: QubesData<T, P>) -> bool {
    forall|k: int| 0 <= k < post.entries().len() ==> pre.entries().contains(#[trigger] post.entries()[k])
}

/// The message that destroys `window` on the daemon.
pub open spec fn destroy_of(window: u32) -> Outbound {
    Outbound::Destroy { window }
}

/// What `process_client_configure` does.
pub open spec fn client_configure_post<T, P>(
    pre: QubesData<T, P>,
    post: QubesData<T, P>,
    m: Configure,
    window: u32,
    pending: Option<Option<(u32, u32)>>,
    r: ConfigureOutcome,
) -> bool {
    &&& post.next_wid() == pre.next_wid()
    &&& post.last_size() == pre.last_size()
    &&& post.ids() == pre.ids()
    &&& r.realloc is None
    &&& r.fill is None
    &&& !pre.has(window) ==> {
        &&& post.entries() == pre.entries()
        &&& r.messages@.len() == 0
        &&& r.placement is None
        &&& r.client_size is None
        &&& !r.send_to_client
    }
    &&& forall|i: int| 0 <= i < pre.entries().len() && pre.entries()[i].0 == window ==> {
        let e = pre.entries()[i].1;
        let size = size_for_client(e.has_configured, m);
        let send = pending is Some && !(pending == Some(Some(size)) && e.has_configured);
        &&& r.messages@ == echo(window, m)
        &&& r.placement == Some((m.rectangle.x, m.rectangle.y))
        &&& r.client_size == (if pending is Some { Some(size) } else { None })
        &&& r.send_to_client == send
        &&& post.entries() == pre.entries().update(i, (window, QubesBackendData {
            surface: e.surface,
            has_configured: e.has_configured || send,
            coordinates: placement(m.rectangle),
        }))
    }
}

/// What `process_self_configure` does (`echo_unchanged` false) and what
/// `process_configure` does for the agent's own window (`echo_unchanged`
/// true): an unchanged size is echoed only by the latter.
pub open spec fn self_configure_post<T, P>(
    pre: QubesData<T, P>,
    post: QubesData<T, P>,
    m: Configure,
    r: ConfigureOutcome,
    echo_unchanged: bool,
) -> bool {
    let (w, h) = (m.rectangle.width, m.rectangle.height);
    let echo_only = seq![Outbound::Configure { window: SELF_WINDOW, configure: m }];
    let area_changed = pre.last_size().0 * pre.last_size().1 != w * h;
    &&& post.next_wid() == pre.next_wid()
    &&& post.entries() == pre.entries()
    &&& post.ids() == pre.ids()
    &&& post.last_size() == (w, h)
    &&& r.client_size is None
    &&& !r.send_to_client
    &&& r.placement is None
    &&& pre.last_size() == (w, h) ==> {
        &&& r.messages@ == (if echo_unchanged { echo_only } else { Seq::empty() })
        &&& r.realloc is None
        &&& r.fill is None
    }
    &&& pre.last_size() != (w, h) ==> {
        &&& r.fill == Some(shade_span(w, h))
        &&& r.realloc == (if area_changed { Some((w, h)) } else { None })
        &&& r.messages@ == (if area_changed {
            seq![Outbound::WindowDump { window: SELF_WINDOW }] + echo(SELF_WINDOW, m)
        } else {
            echo(SELF_WINDOW, m)
        })
    }
}

/// The number of pixels of a `width` by `height` window.
fn area(width: u32, height: u32) -> (r: u64)
    ensures
        r == width * height,
{
    proof {
        assert(width * height <= u32::MAX * u32::MAX) by (nonlinear_arith);
    }
    width as u64 * height as u64
}

/// The outcome of `id`.
pub open spec fn id_post<T, P>(pre: QubesData<T, P>, r: u32, post: QubesData<T, P>) -> bool {
    &&& r == pre.next_wid()
    &&& post.next_wid() == pre.next_wid() + 1
}

/// Window ids are handed out in strictly increasing order: an id handed
/// out at one time is below every id handed out later, since no operation
/// lowers the next id. So none is ever handed out twice.
pub proof fn lemma_ids_increase<T, P>(
    a: QubesData<T, P>,
    r1: u32,
    b: QubesData<T, P>,
    c: QubesData<T, P>,
    r2: u32,
    d: QubesData<T, P>,
)
    requires
        a.wf(),
        id_post(a, r1, b),
        b.next_wid() <= c.next_wid(),
        id_post(c, r2, d),
    ensures
        FIRST_CLIENT_WINDOW <= r1 < r2,
        !a.has(r1),
{
}

/// Along a run of states in which no step lowers the next id, the next id
/// never falls.
proof fn lemma_run_monotone<T, P>(states: Seq<QubesData<T, P>>, a: int, b: int)
    requires
        0 <= a <= b < states.len(),
        forall|k: int| 0 <= k < states.len() - 1 ==> #[trigger] states[k].next_wid() <= states[k + 1].next_wid(),
    ensures
        states[a].next_wid() <= states[b].next_wid(),
    decreases b - a,
{
    if a < b {
        lemma_run_monotone(states, a, b - 1);
        assert(states[b - 1].next_wid() <= states[b].next_wid());
    }
}

/// Over any run of operations, the ids handed out are client ids in
/// strictly increasing order, so none is handed out twice. `states[k]` is
/// the registry before step `k` and `states[k + 1]` after it; `ids[k]` is
/// the id that step `k` handed out, if any. Every operation of `QubesData`
/// leaves the next id unchanged or, in `id` and `data`, raises it by one.
pub proof fn lemma_ids_increase_over_run<T, P>(
    states: Seq<QubesData<T, P>>,
    ids: Seq<Option<u32>>,
    i: int,
    j: int,
)
    requires
        states.len() == ids.len() + 1,
        states[0].wf(),
        forall|k: int| 0 <= k < ids.len() ==> #[trigger] states[k].next_wid() <= states[k + 1].next_wid(),
        forall|k: int| 0 <= k < ids.len() && #[trigger] ids[k] is Some ==> id_post(states[k], ids[k]->Some_0, states[k + 1]),
        0 <= i < j < ids.len(),
        ids[i] is Some,
        ids[j] is Some,
    ensures
        FIRST_CLIENT_WINDOW <= ids[i]->Some_0 < ids[j]->Some_0,
{
    assert forall|k: int| 0 <= k < states.len() - 1 implies #[trigger] states[k].next_wid() <= states[k + 1].next_wid() by {
        assert(states[k].next_wid() <= states[k + 1].next_wid());
    }
    lemma_run_monotone(states, 0, i);
    lemma_run_monotone(states, i + 1, j);
    assert(id_post(states[i], ids[i]->Some_0, states[i + 1]));
    assert(id_post(states[j], ids[j]->Some_0, states[j + 1]));
}

/// The agent's own window is never in the registry, so no `Destroy` is
/// ever produced for it.
pub proof fn lemma_self_window_never_destroyed<T, P>(q: QubesData<T, P>)
    requires
        q.wf(),
    ensures
        !q.has(SELF_WINDOW),
{
}

/// Holds where exactly one message of `msgs` is a `Configure` for `window`,
/// that one carries `m`, and every `ShmImage` comes after it.
pub open spec fn echoed_once(msgs: Seq<Outbound>, window: u32, m: Configure) -> bool {
    exists|k: int| 0 <= k < msgs.len() && msgs[k] == (Outbound::Configure { window, configure: m })
        && (forall|j: int| 0 <= j < msgs.len() && j != k ==> !(#[trigger] msgs[j] is Configure))
        && (forall|j: int| 0 <= j < msgs.len() && #[trigger] msgs[j] is ShmImage ==> j > k)
}

/// A daemon `Configure` for the agent's own window or a registered client
/// window is echoed back exactly once, unchanged, before its `ShmImage`.
pub proof fn lemma_configure_echoed_once<T, P>(
    pre: QubesData<T, P>,
    post: QubesData<T, P>,
    m: Configure,
    window: u32,
    pending: Option<Option<(u32, u32)>>,
    r: ConfigureOutcome,
)
    requires
        window == SELF_WINDOW ==> self_configure_post(pre, post, m, r, true),
        window != SELF_WINDOW ==> client_configure_post(pre, post, m, window, pending, r),
        window == SELF_WINDOW || pre.has(window),
    ensures
        echoed_once(r.messages@, window, m),
{
    let msgs = r.messages@;
    if window == SELF_WINDOW {
        if pre.last_size() != (m.rectangle.width, m.rectangle.height)
            && pre.last_size().0 * pre.last_size().1 != m.rectangle.width * m.rectangle.height {
            assert(msgs[1] == (Outbound::Configure { window, configure: m }));
        } else {
            assert(msgs[0] == (Outbound::Configure { window, configure: m }));
        }
    } else {
        let i = choose|i: int| 0 <= i < pre.ids().len() && pre.ids()[i] == window;
        assert(pre.entries()[i].0 == window);
        assert(msgs[0] == (Outbound::Configure { window, configure: m }));
    }
}

/// The first configure a client receives asks for size `(0, 0)`; once
/// configured, a client is asked for the daemon's size.
pub proof fn lemma_first_configure_zero<T, P>(
    pre: QubesData<T, P>,
    post: QubesData<T, P>,
    m: Configure,
    window: u32,
    i: int,
    pending: Option<Option<(u32, u32)>>,
    r: ConfigureOutcome,
)
    requires
        window != SELF_WINDOW,
        client_configure_post(pre, post, m, window, pending, r),
        0 <= i < pre.entries().len(),
        pre.entries()[i].0 == window,
        r.send_to_client,
    ensures
        !pre.entries()[i].1.has_configured ==> r.client_size == Some((0u32, 0u32)),
        pre.entries()[i].1.has_configured ==> r.client_size == Some((m.rectangle.width, m.rectangle.height)),
        post.entries()[i].1.has_configured,
{
}

/// A daemon `Configure` that leaves a configured client's size as it was
/// sends the client no configure.
pub proof fn lemma_unchanged_size_not_sent<T, P>(
    pre: QubesData<T, P>,
    post: QubesData<T, P>,
    m: Configure,
    window: u32,
    i: int,
    r: ConfigureOutcome,
)
    requires
        window != SELF_WINDOW,
        0 <= i < pre.entries().len(),
        pre.entries()[i].0 == window,
        pre.entries()[i].1.has_configured,
        client_configure_post(pre, post, m, window, Some(Some((m.rectangle.width, m.rectangle.height))), r),
    ensures
        !r.send_to_client,
{
}

/// What the periodic tick found of one registered window: whether its
/// surface is still alive, and its title, if it has one.
pub struct TickReport {
    pub window: u32,
    pub alive: bool,
    pub title: Option<Vec<u8>>,
}

/// The windows whose titles a tick sends, with those titles, in order.
pub open spec fn titled(reports: Seq<TickReport>) -> Seq<(u32, Seq<u8>)>
    decreases reports.len(),
{
    if reports.len() == 0 {
        Seq::empty()
    } else {
        let rest = titled(reports.drop_last());
        let t = reports.last();
        match t.title {
            Some(title) if t.alive => rest.push((t.window, title@)),
            _ => rest,
        }
    }
}

/// The windows that a tick found dead, in order.
pub open spec fn dead_windows(reports: Seq<TickReport>) -> Seq<u32>
    decreases reports.len(),
{
    if reports.len() == 0 {
        Seq::empty()
    } else {
        let rest = dead_windows(reports.drop_last());
        if reports.last().alive { rest } else { rest.push(reports.last().window) }
    }
}

/// Whether `msgs` are the `SetTitle` messages of `titles`, in order.
pub open spec fn sets_titles(msgs: Seq<Outbound>, titles: Seq<(u32, Seq<u8>)>) -> bool {
    &&& msgs.len() == titles.len()
    &&& forall|k: int| 0 <= k < msgs.len() ==> (#[trigger] msgs[k] matches Outbound::SetTitle { window, title }
        && window == titles[k].0 && title@ == padded_title(titles[k].1))
}

/// The agent's own window.
pub const SELF_WINDOW: u32 = 1;

/// The first id handed to a client window.
pub const FIRST_CLIENT_WINDOW: u32 = 2;

impl<T, P> QubesData<T, P> {
    /// The next id to be handed out.
    pub closed spec fn next_wid(&self) -> u32 {
        self.wid
    }

    /// The registry's ids, in order.
    pub closed spec fn ids(&self) -> Seq<u32> {
        self.map@.map_values(|e: (u32, QubesBackendData<T, P>)| e.0)
    }

    /// The registry's entries, in the order of their ids.
    pub closed spec fn entries(&self) -> Seq<(u32, QubesBackendData<T, P>)> {
        self.map@
    }

    /// The size of the agent's own window as last drawn.
    pub closed spec fn last_size(&self) -> (u32, u32) {
        (self.last_width, self.last_height)
    }

    pub open spec fn has(&self, window: u32) -> bool {
        self.ids().contains(window)
    }

    /// Ids are strictly increasing in the registry, client ids only, and all
    /// below the next id to be handed out.
    pub open spec fn wf(&self) -> bool {
        &&& self.next_wid() >= FIRST_CLIENT_WINDOW
        &&& self.ids().len() == self.entries().len()
        &&& forall|i: int| 0 <= i < self.entries().len() ==> #[trigger] self.entries()[i].0 == self.ids()[i]
        &&& forall|i: int, j: int| 0 <= i < j < self.ids().len() ==> self.ids()[i] < self.ids()[j]
        &&& forall|i: int| 0 <= i < self.ids().len() ==>
            FIRST_CLIENT_WINDOW <= #[trigger] self.ids()[i] < self.next_wid()
    }

    /// An empty registry; the first client window gets id 2.
    pub fn new() -> (r: Self)
        ensures
            r.wf(),
            r.next_wid() == FIRST_CLIENT_WINDOW,
            r.ids().len() == 0,
            r.last_size() == (0u32, 0u32),
    {
        QubesData { wid: FIRST_CLIENT_WINDOW, last_width: 0, last_height: 0, map: Vec::new() }
    }

    /// Whether a window id can still be handed out. The id space running
    /// out is fatal: a caller stops when this is false.
    pub fn can_allocate(&self) -> (r: bool)
        ensures
            r == (self.next_wid() < u32::MAX),
    {
        self.wid < u32::MAX
    }

    /// Hands out a fresh window id.
    pub fn id(&mut self) -> (r: u32)
        requires
            old(self).wf(),
            old(self).next_wid() < u32::MAX,
        ensures
            final(self).wf(),
            final(self).ids() == old(self).ids(),
            final(self).entries() == old(self).entries(),
            final(self).last_size() == old(self).last_size(),
            id_post(*old(self), r, *final(self)),
            r >= FIRST_CLIENT_WINDOW,
            !old(self).has(r),
            !final(self).has(r),
    {
        let id = self.wid;
        self.wid = id + 1;
        id
    }

    /// The state of a new surface, bound to a fresh window id, with no
    /// buffer, geometry or scale yet and placed at the origin.
    pub fn data<B>(&mut self) -> (r: SurfaceData<B>)
        requires
            old(self).wf(),
            old(self).next_wid() < u32::MAX,
        ensures
            final(self).wf(),
            final(self).entries() == old(self).entries(),
            final(self).last_size() == old(self).last_size(),
            id_post(*old(self), r.window, *final(self)),
            r.buffer is None,
            r.buffer_dimensions is None,
            r.geometry is None,
            r.buffer_scale == 0,
            r.coordinates == (0u32, 0u32),
    {
        let window = self.id();
        SurfaceData::new(window)
    }

    /// Registers a new toplevel shown in `window`, whose role currently asks
    /// for `size`, and gives the messages that create and map its window:
    /// `Create`, `Configure` and `MapInfo`, at the origin and at least one
    /// pixel wide and high (one by one where no size was given). A window
    /// already registered is refused with `None` and nothing changes.
    pub fn new_toplevel(&mut self, window: u32, surface: T, size: Option<(i32, i32)>) -> (r: Option<Vec<Outbound>>)
        requires
            old(self).wf(),
            FIRST_CLIENT_WINDOW <= window < old(self).next_wid(),
        ensures
            final(self).wf(),
            final(self).next_wid() == old(self).next_wid(),
            final(self).last_size() == old(self).last_size(),
            r is None <==> old(self).has(window),
            r is None ==> final(self).entries() == old(self).entries(),
            r matches Some(v) ==> v@ == create_messages(window, size),
            r is Some ==> final(self).has(window)
                && final(self).ids().to_set() == old(self).ids().to_set().insert(window),
            r is Some ==> exists|i: int| 0 <= i < final(self).entries().len()
                && final(self).entries()[i] == (window, fresh_toplevel::<T, P>(surface))
                && final(self).entries() == old(self).entries().insert(i, (window, fresh_toplevel::<T, P>(surface))),
    {
        let entry = QubesBackendData { surface: Kind::Toplevel(surface), has_configured: false, coordinates: (0, 0) };
        if !self.insert(window, entry) {
            return None;
        }
        proof {
            assert(self.ids().to_set().contains(window));
        }
        let (w, h) = match size {
            Some((w, h)) => (w, h),
            None => (1, 1),
        };
        let rectangle = Rectangle { x: 0, y: 0, width: at_least_one(w), height: at_least_one(h) };
        let mut v: Vec<Outbound> = Vec::new();
        v.push(Outbound::Create { window, rectangle, parent: None, override_redirect: 0 });
        v.push(Outbound::Configure { window, configure: Configure { rectangle, override_redirect: 0 } });
        v.push(Outbound::MapInfo { window, override_redirect: 0, transient_for: 0 });
        proof {
            assert(v@ =~= create_messages(window, size));
        }
        Some(v)
    }

    /// What a daemon `Close` for `window` does.
    pub fn close_action(&self, window: u32) -> (r: CloseAction)
        requires
            self.wf(),
        ensures
            window == SELF_WINDOW ==> r == CloseAction::Exit,
            window != SELF_WINDOW && !self.has(window) ==> r == CloseAction::Ignore,
            window != SELF_WINDOW ==> forall|i: int| 0 <= i < self.entries().len() && self.entries()[i].0 == window
                ==> r == (match self.entries()[i].1.surface {
                    Kind::Toplevel(_) => CloseAction::Close,
                    Kind::Popup(_) => CloseAction::PopupDone,
                }),
    {
        if window == SELF_WINDOW {
            return CloseAction::Exit;
        }
        match self.find(window) {
            None => CloseAction::Ignore,
            Some(i) => {
                assert(self.entries()[i as int].0 == self.ids()[i as int]);
                proof {
                    assert forall|k: int| 0 <= k < self.entries().len() && self.entries()[k].0 == window
                        implies k == i by {
                        assert(self.entries()[k].0 == self.ids()[k]);
                    }
                }
                match self.map[i].1.surface {
                    Kind::Toplevel(_) => CloseAction::Close,
                    Kind::Popup(_) => CloseAction::PopupDone,
                }
            },
        }
    }

    /// The position of `window` in the registry.
    fn find(&self, window: u32) -> (r: Option<usize>)
        requires
            self.wf(),
        ensures
            r matches Some(i) ==> i < self.ids().len() && self.ids()[i as int] == window,
            r is None <==> !self.has(window),
    {
        let mut i: usize = 0;
        while i < self.map.len()
            invariant
                self.wf(),
                i <= self.map.len(),
                forall|k: int| 0 <= k < i ==> self.ids()[k] != window,
            decreases self.map.len() - i,
        {
            if self.map[i].0 == window {
                assert(self.entries()[i as int].0 == self.ids()[i as int]);
                return Some(i);
            }
            assert(self.entries()[i as int].0 == self.ids()[i as int]);
            i += 1;
        }
        None
    }

    /// Removes `window` from the registry. A window that was there is
    /// destroyed on the daemon: the result is its one `Destroy`.
    pub fn destroy(&mut self, window: u32) -> (r: Option<Outbound>)
        requires
            old(self).wf(),
        ensures
            final(self).wf(),
            final(self).next_wid() == old(self).next_wid(),
            final(self).last_size() == old(self).last_size(),
            !final(self).has(window),
            r is Some <==> old(self).has(window),
            r matches Some(m) ==> m == destroy_of(window),
            old(self).has(window) ==> exists|i: int| 0 <= i < old(self).ids().len()
                && old(self).ids()[i] == window
                && final(self).entries() == old(self).entries().remove(i),
            !old(self).has(window) ==> final(self).entries() == old(self).entries(),
            forall|w: u32| w != window ==> (final(self).has(w) <==> old(self).has(w)),
            kept_entries(*old(self), *final(self)),
    {
        match self.find(window) {
            None => None,
            Some(i) => {
                let ghost old_ids = self.ids();
                let ghost old_entries = self.entries();
                let _removed = self.map.remove(i);
                assert forall|k: int| 0 <= k < self.entries().len() implies
                    old_entries.contains(#[trigger] self.entries()[k]) by {
                    if k < i {
                        assert(self.entries()[k] == old_entries[k]);
                    } else {
                        assert(self.entries()[k] == old_entries[k + 1]);
                    }
                }
                assert(self.ids() =~= old_ids.remove(i as int));
                assert(!self.has(window)) by {
                    if self.has(window) {
                        let k = choose|k: int| 0 <= k < self.ids().len() && self.ids()[k] == window;
                        if k < i {
                            assert(old_ids[k] == window);
                        } else {
                            assert(old_ids[k + 1] == window);
                        }
                    }
                }
                assert forall|w: u32| w != window implies (self.has(w) <==> old_ids.contains(w)) by {
                    if self.has(w) {
                        let k = choose|k: int| 0 <= k < self.ids().len() && self.ids()[k] == w;
                        if k < i {
                            assert(old_ids[k] == w);
                        } else {
                            assert(old_ids[k + 1] == w);
                        }
                    }
                    if old_ids.contains(w) {
                        let k = choose|k: int| 0 <= k < old_ids.len() && old_ids[k] == w;
                        if k < i {
                            assert(self.ids()[k] == w);
                        } else {
                            assert(k != i);
                            assert(self.ids()[k - 1] == w);
                        }
                    }
                }
                Some(Outbound::Destroy { window: window })
            },
        }
    }

    /// Removes each window of `dead` from the registry; the result holds one
    /// `Destroy` for each window removed, and no other message.
    pub fn reap(&mut self, dead: &Vec<u32>) -> (r: Vec<Outbound>)
        requires
            old(self).wf(),
        ensures
            final(self).wf(),
            final(self).next_wid() == old(self).next_wid(),
            final(self).last_size() == old(self).last_size(),
            forall|w: u32| final(self).has(w) <==> (old(self).has(w) && !dead@.contains(w)),
            r@.no_duplicates(),
            forall|k: int| 0 <= k < r@.len() ==> exists|w: u32|
                #[trigger] r@[k] == destroy_of(w) && old(self).has(w) && dead@.contains(w),
            forall|w: u32| old(self).has(w) && dead@.contains(w) ==>
                r@.contains(destroy_of(w)),
            kept_entries(*old(self), *final(self)),
    {
        let ghost old_self_has = |w: u32| old(self).has(w);
        let mut r: Vec<Outbound> = Vec::new();
        let mut i: usize = 0;
        while i < dead.len()
            invariant
                self.wf(),
                i <= dead.len(),
                self.next_wid() == old(self).next_wid(),
                self.last_size() == old(self).last_size(),
                forall|w: u32| old_self_has(w) == old(self).has(w),
                kept_entries(*old(self), *self),
                forall|w: u32| self.has(w) <==> (old_self_has(w) && !dead@.take(i as int).contains(w)),
                r@.no_duplicates(),
                forall|k: int| 0 <= k < r@.len() ==> exists|w: u32|
                    #[trigger] r@[k] == destroy_of(w) && old_self_has(w)
                        && dead@.take(i as int).contains(w) && !self.has(w),
                forall|w: u32| old_self_has(w) && dead@.take(i as int).contains(w) ==>
                    r@.contains(destroy_of(w)),
            decreases dead.len() - i,
        {
            let w = dead[i];
            let ghost before = r@;
            assert(dead@.take(i + 1) =~= dead@.take(i as int).push(w));
            let ghost was = self.has(w);
            let ghost prev = *self;
            let ghost pre_ids = self.ids();
            let got = self.destroy(w);
            assert forall|k: int| 0 <= k < self.entries().len() implies
                old(self).entries().contains(#[trigger] self.entries()[k]) by {
                let x = self.entries()[k];
                assert(prev.entries().contains(x));
                let j = choose|j: int| 0 <= j < prev.entries().len() && prev.entries()[j] == x;
                assert(old(self).entries().contains(prev.entries()[j]));
            }
            match got {
                None => {},
                Some(m) => {
                    r.push(m);
                    assert forall|k: int| 0 <= k < before.len() implies before[k] != m by {
                        let v = choose|v: u32| #[trigger] before[k] == destroy_of(v)
                            && old_self_has(v) && dead@.take(i as int).contains(v) && !pre_ids.contains(v);
                    }
                    assert(r@[before.len() as int] == m);
                },
            }
            assert forall|k: int| 0 <= k < r@.len() implies exists|v: u32|
                #[trigger] r@[k] == destroy_of(v) && old_self_has(v)
                    && dead@.take(i + 1).contains(v) && !self.has(v) by {
                if k < before.len() {
                    assert(r@[k] == before[k]);
                    let v = choose|v: u32| #[trigger] before[k] == destroy_of(v)
                        && old_self_has(v) && dead@.take(i as int).contains(v) && !pre_ids.contains(v);
                    assert(dead@.take(i + 1).contains(v)) by {
                        let j = choose|j: int| 0 <= j < i && #[trigger] dead@.take(i as int)[j] == v;
                        assert(dead@.take(i + 1)[j] == dead@[j]);
                    }
                } else {
                    assert(dead@.take(i + 1)[i as int] == w);
                }
            }
            assert forall|v: u32| old_self_has(v) && dead@.take(i + 1).contains(v) implies
                r@.contains(destroy_of(v)) by {
                if v == w {
                    if !was {
                        assert(dead@.take(i as int).contains(v));
                    } else {
                        assert(r@[r@.len() - 1] == destroy_of(v));
                    }
                } else {
                    let j = choose|j: int| 0 <= j < i + 1 && #[trigger] dead@.take(i + 1)[j] == v;
                    assert(dead@.take(i + 1)[i as int] == w);
                    assert(dead@.take(i as int)[j] == v);
                    assert(dead@.take(i as int).contains(v));
                    assert(before.contains(destroy_of(v)));
                    let k = choose|k: int| 0 <= k < before.len() && before[k] == destroy_of(v);
                    assert(r@[k] == before[k]);
                }
            }
            assert forall|v: u32| self.has(v) <==> (old_self_has(v) && !dead@.take(i + 1).contains(v)) by {
                if v != w {
                    if dead@.take(i + 1).contains(v) {
                        let j = choose|j: int| 0 <= j < i + 1 && #[trigger] dead@.take(i + 1)[j] == v;
                        assert(dead@.take(i as int)[j] == v);
                    }
                    if dead@.take(i as int).contains(v) {
                        let j = choose|j: int| 0 <= j < i && #[trigger] dead@.take(i as int)[j] == v;
                        assert(dead@.take(i + 1)[j] == dead@[j]);
                    }
                } else {
                    assert(dead@.take(i + 1)[i as int] == v);
                }
            }
            i += 1;
        }
        assert(dead@.take(i as int) =~= dead@);
        r
    }

    /// A daemon `Configure` for `window`. The agent's own window is redrawn
    /// by `process_self_configure`, and its configure echoed once also where
    /// the size did not change; a client window is handed to
    /// `process_client_configure`.
    pub fn process_configure(&mut self, m: Configure, window: u32, pending: Option<Option<(u32, u32)>>) -> (r: ConfigureOutcome)
        requires
            old(self).wf(),
        ensures
            final(self).wf(),
            window == SELF_WINDOW ==> self_configure_post(*old(self), *final(self), m, r, true),
            window != SELF_WINDOW ==> client_configure_post(*old(self), *final(self), m, window, pending, r),
    {
        if window == SELF_WINDOW {
            let mut r = self.process_self_configure(m);
            if r.messages.len() == 0 {
                r.messages.push(Outbound::Configure { window: SELF_WINDOW, configure: m });
                assert(r.messages@ =~= seq![Outbound::Configure { window: SELF_WINDOW, configure: m }]);
            }
            r
        } else {
            self.process_client_configure(m, window, pending)
        }
    }

    /// A daemon `Configure` for a client window. `pending` is the size
    /// pending on the window's role: `None` where the role is dead, `Some(None)`
    /// where no size was pended yet.
    ///
    /// An unknown window is ignored. For a known one the configure is echoed
    /// to the daemon with the image of its rectangle, the placement recorded,
    /// and the role pended the daemon's size, or `(0, 0)` before its first
    /// configure; the role is sent a configure unless it was configured
    /// before and the size did not change.
    pub fn process_client_configure(&mut self, m: Configure, window: u32, pending: Option<Option<(u32, u32)>>) -> (r: ConfigureOutcome)
        requires
            old(self).wf(),
        ensures
            final(self).wf(),
            client_configure_post(*old(self), *final(self), m, window, pending, r),
    {
        let idx = match self.find(window) {
            None => {
                return ConfigureOutcome {
                    realloc: None,
                    fill: None,
                    messages: Vec::new(),
                    client_size: None,
                    send_to_client: false,
                    placement: None,
                };
            },
            Some(i) => i,
        };
        assert(self.entries()[idx as int].0 == self.ids()[idx as int]);
        let mut messages: Vec<Outbound> = Vec::new();
        messages.push(Outbound::Configure { window, configure: m });
        messages.push(Outbound::ShmImage { window, rectangle: m.rectangle });
        let configured = self.map[idx].1.has_configured;
        let new_size: (u32, u32) = if configured {
            (m.rectangle.width, m.rectangle.height)
        } else {
            (0, 0)
        };
        let (client_size, send) = match pending {
            None => (None, false),
            Some(prev) => {
                let unchanged = match prev {
                    Some(p) => p.0 == new_size.0 && p.1 == new_size.1,
                    None => false,
                };
                (Some(new_size), !(unchanged && configured))
            },
        };
        let entry = &mut self.map[idx].1;
        entry.coordinates = (m.rectangle.x as i32, m.rectangle.y as i32);
        if send {
            entry.has_configured = true;
        }
        assert(self.ids() =~= old(self).ids());
        proof {
            assert(messages@ =~= echo(window, m));
        }
        ConfigureOutcome {
            realloc: None,
            fill: None,
            messages,
            client_size,
            send_to_client: send,
            placement: Some((m.rectangle.x, m.rectangle.y)),
        }
    }

    /// A daemon `Configure` for the agent's own window. An unchanged size
    /// needs no redraw and gives nothing; where the size changed the
    /// configure is echoed once, the framebuffer is reallocated if its area changed,
    /// the middle half of its lines shaded, its header dumped after a
    /// reallocation, and the image of the rectangle sent after the echo.
    pub fn process_self_configure(&mut self, m: Configure) -> (r: ConfigureOutcome)
        requires
            old(self).wf(),
        ensures
            final(self).wf(),
            self_configure_post(*old(self), *final(self), m, r, false),
    {
        let width = m.rectangle.width;
        let height = m.rectangle.height;
        let mut messages: Vec<Outbound> = Vec::new();
        if width == self.last_width && height == self.last_height {
            assert(messages@ =~= Seq::<Outbound>::empty());
            return ConfigureOutcome {
                realloc: None,
                fill: None,
                messages,
                client_size: None,
                send_to_client: false,
                placement: None,
            };
        }
        let old_area = area(self.last_width, self.last_height);
        let new_area = area(width, height);
        let need_dump = old_area != new_area;
        self.last_width = width;
        self.last_height = height;
        let first = area(width, height / 4);
        let count = area(width, height / 2);
        if need_dump {
            messages.push(Outbound::WindowDump { window: SELF_WINDOW });
        }
        messages.push(Outbound::Configure { window: SELF_WINDOW, configure: m });
        messages.push(Outbound::ShmImage { window: SELF_WINDOW, rectangle: m.rectangle });
        proof {
            if need_dump {
                assert(messages@ =~= seq![Outbound::WindowDump { window: SELF_WINDOW }] + echo(SELF_WINDOW, m));
            } else {
                assert(messages@ =~= echo(SELF_WINDOW, m));
            }
        }
        ConfigureOutcome {
            realloc: if need_dump { Some((width, height)) } else { None },
            fill: Some((first, count)),
            messages,
            client_size: None,
            send_to_client: false,
            placement: None,
        }
    }

    /// The periodic tick: the title of each live window is sent, then each
    /// window whose surface died is destroyed and removed, once.
    pub fn tick(&mut self, reports: &Vec<TickReport>) -> (r: Vec<Outbound>)
        requires
            old(self).wf(),
        ensures
            final(self).wf(),
            final(self).next_wid() == old(self).next_wid(),
            final(self).last_size() == old(self).last_size(),
            sets_titles(r@.take(titled(reports@).len() as int), titled(reports@)),
            kept_entries(*old(self), *final(self)),
            forall|w: u32| #[trigger] final(self).has(w) <==> (old(self).has(w) && !dead_windows(reports@).contains(w)),
            ({
                let d = r@.skip(titled(reports@).len() as int);
                &&& d.no_duplicates()
                &&& forall|k: int| 0 <= k < d.len() ==> exists|w: u32|
                    #[trigger] d[k] == destroy_of(w) && old(self).has(w) && dead_windows(reports@).contains(w)
                &&& forall|w: u32| old(self).has(w) && dead_windows(reports@).contains(w) ==> d.contains(destroy_of(w))
            }),
    {
        let mut r: Vec<Outbound> = Vec::new();
        let mut dead: Vec<u32> = Vec::new();
        let mut i: usize = 0;
        while i < reports.len()
            invariant
                i <= reports.len(),
                sets_titles(r@, titled(reports@.take(i as int))),
                dead@ == dead_windows(reports@.take(i as int)),
                *self == *old(self),
            decreases reports.len() - i,
        {
            assert(reports@.take(i + 1).drop_last() =~= reports@.take(i as int));
            let rep = &reports[i];
            if !rep.alive {
                dead.push(rep.window);
            } else {
                match &rep.title {
                    Some(t) => {
                        let m = title_message(rep.window, t);
                        r.push(m);
                    },
                    None => {},
                }
            }
            i += 1;
        }
        assert(reports@.take(i as int) =~= reports@);
        assert(dead@ == dead_windows(reports@));
        let ghost titles_part = r@;
        let ghost pre = *self;
        assert(pre == *old(self));
        let mut destroyed = self.reap(&dead);
        assert forall|w: u32| #[trigger] self.has(w) <==> (pre.has(w) && !dead_windows(reports@).contains(w)) by {
            if dead@.contains(w) {}
        }
        let ghost d = destroyed@;
        r.append(&mut destroyed);
        assert(r@.take(titles_part.len() as int) =~= titles_part);
        assert(r@.skip(titles_part.len() as int) =~= d);
        r
    }

    /// Whether `window` is in the registry.
    pub fn contains(&self, window: u32) -> (r: bool)
        requires
            self.wf(),
        ensures
            r == self.has(window),
    {
        self.find(window).is_some()
    }

    /// The entry of `window`; an unknown id gives `None`.
    pub fn get(&self, window: u32) -> (r: Option<&QubesBackendData<T, P>>)
        requires
            self.wf(),
        ensures
            r is None <==> !self.has(window),
            r matches Some(e) ==> exists|i: int|
                0 <= i < self.entries().len() && self.entries()[i] == (window, *e),
    {
        match self.find(window) {
            None => None,
            Some(i) => {
                assert(self.entries()[i as int].0 == self.ids()[i as int]);
                Some(&self.map[i].1)
            },
        }
    }

    /// The ids of the registry, in increasing order.
    pub fn window_ids(&self) -> (r: Vec<u32>)
        requires
            self.wf(),
        ensures
            r@ == self.ids(),
    {
        let mut r: Vec<u32> = Vec::new();
        let mut i: usize = 0;
        while i < self.map.len()
            invariant
                self.wf(),
                i <= self.map.len(),
                r@ == self.ids().take(i as int),
            decreases self.map.len() - i,
        {
            assert(self.entries()[i as int].0 == self.ids()[i as int]);
            r.push(self.map[i].0);
            assert(self.ids().take(i + 1) == self.ids().take(i as int).push(self.ids()[i as int]));
            i += 1;
        }
        assert(self.ids().take(i as int) == self.ids());
        r
    }

    /// Adds `window`, which must have been handed out by `id`, to the registry.
    /// An id already present is refused with `false` and nothing changes.
    pub fn insert(&mut self, window: u32, entry: QubesBackendData<T, P>) -> (r: bool)
        requires
            old(self).wf(),
            FIRST_CLIENT_WINDOW <= window < old(self).next_wid(),
        ensures
            final(self).wf(),
            r == !old(self).has(window),
            final(self).next_wid() == old(self).next_wid(),
            final(self).last_size() == old(self).last_size(),
            !r ==> final(self).entries() == old(self).entries(),
            r ==> final(self).ids().to_set() == old(self).ids().to_set().insert(window),
            r ==> exists|i: int| 0 <= i < final(self).entries().len()
                && final(self).entries()[i] == (window, entry)
                && final(self).entries() == old(self).entries().insert(i, (window, entry)),
    {
        if self.find(window).is_some() {
            return false;
        }
        let mut p: usize = 0;
        while p < self.map.len() && self.map[p].0 < window
            invariant
                self.wf(),
                p <= self.map.len(),
                forall|k: int| 0 <= k < p ==> self.ids()[k] < window,
            decreases self.map.len() - p,
        {
            assert(self.entries()[p as int].0 == self.ids()[p as int]);
            p += 1;
        }
        if p < self.map.len() {
            assert(self.entries()[p as int].0 == self.ids()[p as int]);
        }
        let ghost old_ids = self.ids();
        self.map.insert(p, (window, entry));
        assert(self.ids() =~= old_ids.insert(p as int, window));
        assert(forall|k: int| p <= k < old_ids.len() ==> old_ids[k] > window) by {
            assert forall|k: int| p <= k < old_ids.len() implies old_ids[k] > window by {
                assert(old_ids[p as int] >= window);
                assert(old_ids[p as int] != window);
            }
        }
        assert(self.ids().to_set() =~= old_ids.to_set().insert(window)) by {
            assert forall|x: u32| self.ids().to_set().contains(x) implies old_ids.to_set().insert(window).contains(x) by {
                let k = choose|k: int| 0 <= k < self.ids().len() && self.ids()[k] == x;
                if k > p {
                    assert(old_ids[k - 1] == x);
                }
            }
            assert forall|x: u32| old_ids.to_set().insert(window).contains(x) implies self.ids().to_set().contains(x) by {
                if x == window {
                    assert(self.ids()[p as int] == x);
                } else {
                    let k = choose|k: int| 0 <= k < old_ids.len() && old_ids[k] == x;
                    if k < p {
                        assert(self.ids()[k] == x);
                    } else {
                        assert(self.ids()[k + 1] == x);
                    }
                }
            }
        }
        assert(self.entries()[p as int] == (window, entry));
        true
    }
}

} // verus!
