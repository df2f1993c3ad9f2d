//! The application manager's decision core: the app registry, the deferred
//! request slot a guest writes through the host ABI, and the rules of the
//! per-frame reconciliation loop. The surrounding driver loads modules and
//! calls the guest; every decision it acts on is taken here.

use vstd::prelude::*;

verus! {

/// A deferred mode-change request raised from inside a guest call.
#[derive(Clone, Copy, PartialEq, Eq, Structural, Debug)]
pub enum AppRequest {
    /// No request is pending.
    Idle,
    /// Return to the launcher.
    ExitToLauncher,
    /// Start the app with the id in the slot.
    StartApp,
}

/// The single-value deferred request slot: written by the host ABI from
/// inside a guest invocation, drained by the manager between frames.
pub struct PendingSlot {
    request: AppRequest,
    app_id: u32,
}

impl PendingSlot {
    /// The pending request.
    pub closed spec fn request_spec(&self) -> AppRequest {
        self.request
    }

    /// The app id carried with a start request.
    pub closed spec fn app_id_spec(&self) -> u32 {
        self.app_id
    }

    /// An empty slot.
    pub fn new() -> (r: PendingSlot)
        ensures
            r.request_spec() == AppRequest::Idle,
            r.app_id_spec() == 0,
    {
        PendingSlot { request: AppRequest::Idle, app_id: 0 }
    }

    /// Record an exit-to-launcher request, replacing any pending request.
    pub fn write_exit(&mut self)
        ensures
            final(self).request_spec() == AppRequest::ExitToLauncher,
            final(self).app_id_spec() == 0,
    {
        self.request = AppRequest::ExitToLauncher;
        self.app_id = 0;
    }

    /// Record a start-app request, replacing any pending request; id 0
    /// names the launcher.
    pub fn write_start(&mut self, app_id: u32)
        ensures
            final(self).request_spec() == AppRequest::StartApp,
            final(self).app_id_spec() == app_id,
    {
        self.request = AppRequest::StartApp;
        self.app_id = app_id;
    }

    /// Read and clear the slot in one step.
    pub fn take(&mut self) -> (r: (AppRequest, u32))
        ensures
            r == (old(self).request_spec(), old(self).app_id_spec()),
            final(self).request_spec() == AppRequest::Idle,
            final(self).app_id_spec() == 0,
    {
        let r = (self.request, self.app_id);
        self.request = AppRequest::Idle;
        self.app_id = 0;
        r
    }
}

/// One registered application: a dense, non-zero id and its module locator.
pub struct AppEntry {
    pub id: u32,
    pub path: String,
}

/// The app registry: entries with ids assigned densely in insertion order,
/// plus the optional launcher locator.
pub struct AppRegistry {
    apps: Vec<AppEntry>,
    launcher_path: Option<String>,
}

impl AppRegistry {
    /// The registered module locators, in insertion order.
    pub closed spec fn paths(&self) -> Seq<Seq<char>> {
        Seq::new(self.apps@.len(), |i: int| self.apps@[i].path@)
    }

    /// The launcher locator, when one is set.
    pub closed spec fn launcher_spec(&self) -> Option<Seq<char>> {
        match self.launcher_path {
            Some(ref p) => Some(p@),
            None => None,
        }
    }

    /// Ids are dense: entry `i` carries id `i + 1`.
    pub closed spec fn ids_dense(&self) -> bool {
        forall|i: int| 0 <= i < self.apps@.len() ==> (#[trigger] self.apps@[i].id) == i + 1
    }

    /// The registry keeps its ids dense and never overflows them.
    pub open spec fn wf(&self) -> bool {
        self.ids_dense() && self.paths().len() < 0xffff_ffff
    }

    /// An empty registry with no launcher.
    pub fn new() -> (r: AppRegistry)
        ensures
            r.wf(),
            r.paths().len() == 0,
            r.launcher_spec() is None,
    {
        AppRegistry { apps: Vec::new(), launcher_path: None }
    }

    /// Register an app; its id is one past the previous count. Fails only
    /// when the id space is exhausted.
    pub fn add_app(&mut self, path: &str) -> (ok: bool)
        requires
            old(self).wf(),
        ensures
            final(self).wf(),
            ok ==> final(self).paths() == old(self).paths().push(path@),
            !ok ==> *final(self) == *old(self),
            ok == (old(self).paths().len() < 0xffff_fffd),
            final(self).launcher_spec() == old(self).launcher_spec(),
    {
        if self.apps.len() as u64 >= 0xffff_fffd {
            return false;
        }
        let id = (self.apps.len() + 1) as u32;
        self.apps.push(AppEntry { id, path: path.to_owned() });
        proof {
            assert(final(self).paths() =~= old(self).paths().push(path@));
        }
        true
    }

    /// Set the launcher locator.
    pub fn set_launcher_path(&mut self, path: &str)
        ensures
            final(self).launcher_spec() == Some(path@),
            final(self).paths() == old(self).paths(),
            old(self).wf() ==> final(self).wf(),
    {
        self.launcher_path = Some(path.to_owned());
        proof {
            assert(final(self).paths() =~= old(self).paths());
        }
    }

    /// The launcher locator, when one is set.
    pub fn launcher(&self) -> (r: Option<&String>)
        ensures
            r matches Some(p) ==> self.launcher_spec() == Some(p@),
            r is None <==> self.launcher_spec() is None,
    {
        match self.launcher_path {
            Some(ref p) => Some(p),
            None => None,
        }
    }

    /// The locator of the app with the given id: ids start at 1 and follow
    /// insertion order. Exactly the registered ids resolve.
    pub fn lookup_path(&self, app_id: u32) -> (r: Option<&String>)
        requires
            self.wf(),
        ensures
            1 <= app_id <= self.paths().len() ==> (r matches Some(p) && p@ == self.paths()[app_id
                as int - 1]),
            !(1 <= app_id <= self.paths().len()) ==> r is None,
    {
        if app_id == 0 || app_id as usize > self.apps.len() {
            return None;
        }
        let entry = &self.apps[app_id as usize - 1];
        Some(&entry.path)
    }
}

/// The action the manager takes for a drained request: an exit request and
/// a start request for id 0 both show the launcher; a start request for a
/// registered id launches that app; an empty slot does nothing.
#[derive(Clone, Copy, PartialEq, Eq, Structural, Debug)]
pub enum PendingAction {
    /// Nothing to do.
    Stay,
    /// Unload the module and show the launcher.
    ShowLauncher,
    /// Launch the registered app with this id.
    LaunchApp(u32),
}

/// Decide the action for a drained request slot.
pub fn resolve_request(request: AppRequest, app_id: u32) -> (r: PendingAction)
    ensures
        request == AppRequest::Idle ==> r == PendingAction::Stay,
        request == AppRequest::ExitToLauncher ==> r == PendingAction::ShowLauncher,
        request == AppRequest::StartApp && app_id == 0 ==> r == PendingAction::ShowLauncher,
        request == AppRequest::StartApp && app_id != 0 ==> r == PendingAction::LaunchApp(app_id),
{
    match request {
        AppRequest::Idle => PendingAction::Stay,
        AppRequest::ExitToLauncher => PendingAction::ShowLauncher,
        AppRequest::StartApp => {
            if app_id == 0 {
                PendingAction::ShowLauncher
            } else {
                PendingAction::LaunchApp(app_id)
            }
        },
    }
}

/// Decide whether the reconciliation loop runs another render pass: at most
/// two passes per frame, a second only when the module switched or the
/// guest asked for one, and never into an app slot left empty.
pub fn rerender_decision(
    passes: u32,
    switched: bool,
    render_requested: bool,
    module_loaded: bool,
    in_launcher: bool,
) -> (r: bool)
    ensures
        r == (passes < 2 && (switched || render_requested) && (module_loaded || in_launcher)),
{
    if passes >= 2 {
        return false;
    }
    if !(switched || render_requested) {
        return false;
    }
    if !module_loaded && !in_launcher {
        return false;
    }
    true
}

} // verus!

verus! {

/// The runtime's mode and module bookkeeping: whether the launcher or an
/// app is current, whether a module is loaded, and the last recorded load
/// or runtime error. The driver performs the loads; every transition it
/// records is taken here.
pub struct ManagerState {
    in_launcher: bool,
    module_loaded: bool,
    last_error: Option<String>,
}

impl ManagerState {
    /// Whether the launcher is the current mode.
    pub closed spec fn in_launcher_spec(&self) -> bool {
        self.in_launcher
    }

    /// Whether a guest module is loaded.
    pub closed spec fn module_loaded_spec(&self) -> bool {
        self.module_loaded
    }

    /// The last recorded error message.
    pub closed spec fn last_error_spec(&self) -> Option<Seq<char>> {
        match self.last_error {
            Some(ref e) => Some(e@),
            None => None,
        }
    }

    /// Startup state: launcher mode, no module, no error.
    pub fn new() -> (r: ManagerState)
        ensures
            r.in_launcher_spec(),
            !r.module_loaded_spec(),
            r.last_error_spec() is None,
    {
        ManagerState { in_launcher: true, module_loaded: false, last_error: None }
    }

    /// Record a switch to the launcher: the mode becomes launcher whatever
    /// happened; a failed launcher load leaves no module and records the
    /// error.
    pub fn note_show_launcher(&mut self, loaded: bool, error: &str)
        ensures
            final(self).in_launcher_spec(),
            final(self).module_loaded_spec() == loaded,
            loaded ==> final(self).last_error_spec() == old(self).last_error_spec(),
            !loaded ==> final(self).last_error_spec() == Some(error@),
    {
        self.in_launcher = true;
        self.module_loaded = loaded;
        if !loaded {
            self.last_error = Some(error.to_owned());
        }
    }

    /// Record an app launch attempt: success enters app mode with the
    /// module loaded; failure leaves no module (the loader unloads first),
    /// keeps the mode, and records the error.
    pub fn note_launch(&mut self, loaded: bool, error: &str)
        ensures
            final(self).module_loaded_spec() == loaded,
            loaded ==> !final(self).in_launcher_spec() && final(self).last_error_spec()
                == old(self).last_error_spec(),
            !loaded ==> final(self).in_launcher_spec() == old(self).in_launcher_spec()
                && final(self).last_error_spec() == Some(error@),
    {
        self.module_loaded = loaded;
        if loaded {
            self.in_launcher = false;
        } else {
            self.last_error = Some(error.to_owned());
        }
    }

    /// Record that the module was unloaded.
    pub fn note_unload(&mut self)
        ensures
            final(self).in_launcher_spec() == old(self).in_launcher_spec(),
            !final(self).module_loaded_spec(),
            final(self).last_error_spec() == old(self).last_error_spec(),
    {
        self.module_loaded = false;
    }

    /// Whether the render pass draws the launcher error panel instead of
    /// calling a guest: launcher mode with no module loaded.
    pub fn should_draw_error_panel(&self) -> (r: bool)
        ensures
            r == (self.in_launcher_spec() && !self.module_loaded_spec()),
    {
        self.in_launcher && !self.module_loaded
    }

    /// Whether the launcher is the current mode.
    pub fn in_launcher(&self) -> (r: bool)
        ensures
            r == self.in_launcher_spec(),
    {
        self.in_launcher
    }

    /// Whether a guest module is loaded.
    pub fn module_loaded(&self) -> (r: bool)
        ensures
            r == self.module_loaded_spec(),
    {
        self.module_loaded
    }

    /// The last recorded error message.
    pub fn last_error(&self) -> (r: Option<&String>)
        ensures
            r matches Some(e) ==> self.last_error_spec() == Some(e@),
            r is None <==> self.last_error_spec() is None,
    {
        match self.last_error {
            Some(ref e) => Some(e),
            None => None,
        }
    }
}

} // verus!
