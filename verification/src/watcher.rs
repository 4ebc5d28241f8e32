//! What the repository watcher decides: which file events are noise, and
//! when to tell the window that something changed.
use vstd::prelude::*;
use crate::text::{contains, contains_exec, ends_with, ends_with_exec, to_chars};

verus! {

/// What the watcher reports.
#[derive(Debug, Clone, Copy, PartialEq, Eq, Structural)]
pub enum WatchEvent {
    Changed,
}

/// Whether `needle` occurs in `hay`.
pub fn contains_seg(hay: &str, needle: &str) -> (r: bool)
    ensures
        r == contains(hay@, needle@),
{
    contains_exec(&to_chars(hay), &to_chars(needle))
}

/// A path whose changes do not matter: git's object store and logs,
/// `node_modules`, build output, and `.DS_Store` files.
pub open spec fn noisy_path(s: Seq<char>) -> bool {
    contains(s, ".git/objects"@) || contains(s, ".git\\objects"@) || contains(s, ".git/logs"@)
        || contains(s, ".git\\logs"@) || contains(s, "/node_modules/"@) || contains(
        s,
        "\\node_modules\\"@,
    ) || contains(s, "/target/debug"@) || contains(s, "/target/release"@) || contains(
        s,
        "\\target\\debug"@,
    ) || contains(s, "\\target\\release"@) || ends_with(s, ".DS_Store"@)
}

fn noisy_path_exec(p: &str) -> (r: bool)
    ensures
        r == noisy_path(p@),
{
    contains_seg(p, ".git/objects") || contains_seg(p, ".git\\objects") || contains_seg(
        p,
        ".git/logs",
    ) || contains_seg(p, ".git\\logs") || contains_seg(p, "/node_modules/") || contains_seg(
        p,
        "\\node_modules\\",
    ) || contains_seg(p, "/target/debug") || contains_seg(p, "/target/release") || contains_seg(
        p,
        "\\target\\debug",
    ) || contains_seg(p, "\\target\\release") || ends_with_exec(&to_chars(p), &to_chars(".DS_Store"))
}

/// An event is noise when every path it names is noisy (so an event naming
/// no path is noise).
pub open spec fn is_noise_spec(paths: Seq<Seq<char>>) -> bool {
    forall|i: int| 0 <= i < paths.len() ==> noisy_path(#[trigger] paths[i])
}

/// Whether an event that names `paths` is noise.
pub fn is_noise(paths: &Vec<String>) -> (r: bool)
    ensures
        r == is_noise_spec(paths.deep_view()),
{
    let ghost pv = paths.deep_view();
    for i in 0..paths.len()
        invariant
            pv == paths.deep_view(),
            forall|j: int| 0 <= j < i ==> noisy_path(#[trigger] pv[j]),
    {
        proof {
            assert(pv[i as int] == paths@[i as int]@);
        }
        if !noisy_path_exec(paths[i].as_str()) {
            return false;
        }
    }
    true
}

/// What the watcher's command channel gave.
#[derive(Debug)]
pub enum Received {
    /// The window asked the watcher to stop.
    Shutdown,
    /// The window moved to another repository.
    SetRepo(String),
    /// The window is gone.
    Disconnected,
    /// Nothing came in time.
    Timeout,
}

/// What the watcher does next.
#[derive(Debug)]
pub enum WatchStep {
    Stop,
    /// Stop watching `old`, watch `new`.
    Rewatch { old: String, new: String },
    Continue,
}

/// Whether some event of a batch names a path that is not noise (`None`
/// stands for an error from the file-system watcher).
pub open spec fn any_change(events: Seq<Option<Vec<String>>>) -> bool {
    exists|i: int| 0 <= i < events.len() && is_change(#[trigger] events[i])
}

/// Whether one event is a change that matters.
pub open spec fn is_change(event: Option<Vec<String>>) -> bool {
    match event {
        Some(p) => !is_noise_spec(p.deep_view()),
        None => false,
    }
}

/// One pass of the watcher: what the command channel gave, then the batch of
/// file-system events that came meanwhile.  A stop ends the watcher and
/// tells nothing; otherwise the window is told of a change at most once,
/// when a change that matters is pending, and nothing stays pending.
pub open spec fn pass_effect(
    s0: WatchState,
    s1: WatchState,
    received: Received,
    events: Seq<Option<Vec<String>>>,
    step: WatchStep,
    notify: bool,
) -> bool {
    match received {
        Received::Shutdown => step is Stop && !notify && s1 == s0,
        Received::Disconnected => step is Stop && !notify && s1 == s0,
        Received::Timeout => step is Continue && s1.repo == s0.repo && !s1.dirty && notify == (
        s0.dirty || any_change(events)),
        Received::SetRepo(new) => (step matches WatchStep::Rewatch { old: o, new: n } && o
            == s0.repo && n == new) && s1.repo == new && !s1.dirty && notify == any_change(events),
    }
}

/// The watcher's state: the watched repository, and whether a change that
/// matters came since the window was last told.
pub struct WatchState {
    pub repo: String,
    pub dirty: bool,
}

impl WatchState {
    pub fn new(repo: String) -> (s: WatchState)
        ensures
            s.repo == repo,
            !s.dirty,
    {
        WatchState { repo, dirty: false }
    }

    /// Reacts to what the command channel gave: stop on a shutdown or when
    /// the window is gone; move to a new repository, forgetting pending
    /// changes; otherwise go on.
    pub fn on_received(&mut self, msg: Received) -> (step: WatchStep)
        ensures
            match msg {
                Received::Shutdown => step is Stop && *final(self) == *old(self),
                Received::Disconnected => step is Stop && *final(self) == *old(self),
                Received::Timeout => step is Continue && *final(self) == *old(self),
                Received::SetRepo(new) => (step matches WatchStep::Rewatch { old: o, new: n } && o
                    == old(self).repo && n == new) && final(self).repo == new && !final(self).dirty,
            },
    {
        match msg {
            Received::Shutdown => WatchStep::Stop,
            Received::Disconnected => WatchStep::Stop,
            Received::Timeout => WatchStep::Continue,
            Received::SetRepo(new) => {
                let old_repo = self.repo.clone();
                self.repo = new.clone();
                self.dirty = false;
                WatchStep::Rewatch { old: old_repo, new }
            },
        }
    }

    /// Takes in one file-system event: `None` for an error from the
    /// watcher, else the paths the event names.  A change that is not noise
    /// makes the state dirty.
    pub fn on_fs_event(&mut self, paths: Option<&Vec<String>>)
        ensures
            final(self).repo == old(self).repo,
            final(self).dirty == (old(self).dirty || match paths {
                Some(p) => !is_noise_spec(p.deep_view()),
                None => false,
            }),
    {
        match paths {
            Some(p) => {
                if !is_noise(p) {
                    self.dirty = true;
                }
            },
            None => {},
        }
    }

    /// Runs one pass: see `pass_effect`.  The step says what to do with the
    /// watch (stop, move it, keep it), the flag whether to tell the window.
    pub fn pass(&mut self, received: Received, events: &Vec<Option<Vec<String>>>) -> (r: (
        WatchStep,
        bool,
    ))
        ensures
            pass_effect(*old(self), *final(self), received, events@, r.0, r.1),
    {
        let step = self.on_received(received);
        if let WatchStep::Stop = step {
            return (step, false);
        }
        let ghost d0 = self.dirty;
        let ghost r0 = self.repo;
        for i in 0..events.len()
            invariant
                self.repo == r0,
                self.dirty == (d0 || any_change(events@.take(i as int))),
        {
            proof {
                assert(events@.take(i + 1) == events@.take(i as int).push(events@[i as int]));
                let t0 = events@.take(i as int);
                let t1 = events@.take(i + 1);
                if any_change(t0) {
                    let k = choose|k: int| 0 <= k < t0.len() && is_change(#[trigger] t0[k]);
                    assert(t1[k] == t0[k]);
                }
            }
            match &events[i] {
                Some(p) => self.on_fs_event(Some(p)),
                None => self.on_fs_event(None),
            }
            proof {
                let t0 = events@.take(i as int);
                let t1 = events@.take(i + 1);
                if any_change(t1) && !any_change(t0) {
                    let k = choose|k: int| 0 <= k < t1.len() && is_change(#[trigger] t1[k]);
                    if k < i {
                        assert(t0[k] == t1[k]);
                    }
                }
                if is_change(events@[i as int]) {
                    assert(t1[i as int] == events@[i as int]);
                }
            }
        }
        proof {
            assert(events@.take(events@.len() as int) == events@);
        }
        let notify = self.take_dirty();
        (step, notify)
    }

    /// Whether to tell the window that something changed; the state is
    /// clean afterwards.
    pub fn take_dirty(&mut self) -> (notify: bool)
        ensures
            notify == old(self).dirty,
            !final(self).dirty,
            final(self).repo == old(self).repo,
    {
        let d = self.dirty;
        self.dirty = false;
        d
    }
}

/// One pass of a running watcher, whose state is clean between passes (a new
/// one starts clean, and every pass leaves it clean): it stops exactly on a
/// shutdown or when the window is gone, and then tells nothing; otherwise it
/// tells the window of a change at most once, exactly when an event of that
/// pass names a path that is not noise.
pub proof fn law_one_change_per_pass(
    s0: WatchState,
    s1: WatchState,
    received: Received,
    events: Seq<Option<Vec<String>>>,
    step: WatchStep,
    notify: bool,
)
    requires
        pass_effect(s0, s1, received, events, step, notify),
        !s0.dirty,
    ensures
        step is Stop <==> (received is Shutdown || received is Disconnected),
        notify <==> (step !is Stop && any_change(events)),
        !s1.dirty,
{
}

/// A whole run of the watcher: starting from a new watcher's state (clean),
/// pass `k` takes `states[k]` to `states[k + 1]`.  Every pass stops exactly
/// on a shutdown or when the window is gone, and then tells nothing; every
/// other pass tells the window of a change at most once, exactly when an
/// event of that very pass names a path that is not noise; and nothing is
/// pending after any pass.
pub proof fn law_watcher_run(
    states: Seq<WatchState>,
    received: Seq<Received>,
    events: Seq<Seq<Option<Vec<String>>>>,
    steps: Seq<WatchStep>,
    notify: Seq<bool>,
)
    requires
        states.len() == received.len() + 1,
        events.len() == received.len(),
        steps.len() == received.len(),
        notify.len() == received.len(),
        !states[0].dirty,
        forall|k: int|
            0 <= k < received.len() ==> pass_effect(
                #[trigger] states[k],
                states[k + 1],
                received[k],
                events[k],
                steps[k],
                notify[k],
            ),
    ensures
        forall|k: int|
            0 <= k < received.len() ==> (#[trigger] steps[k] is Stop <==> (received[k] is Shutdown
                || received[k] is Disconnected)),
        forall|k: int|
            0 <= k < received.len() ==> (#[trigger] notify[k] <==> (steps[k] !is Stop && any_change(
                events[k],
            ))),
        forall|k: int| 0 <= k < states.len() ==> !(#[trigger] states[k]).dirty,
{
    assert forall|k: int| 0 <= k < states.len() implies !(#[trigger] states[k]).dirty by {
        lemma_run_clean(states, received, events, steps, notify, k);
    }
    assert forall|k: int| 0 <= k < received.len() implies (#[trigger] notify[k] <==> (steps[k] !is Stop
        && any_change(events[k]))) by {
        assert(!states[k].dirty);
        assert(pass_effect(states[k], states[k + 1], received[k], events[k], steps[k], notify[k]));
    }
    assert forall|k: int| 0 <= k < received.len() implies (#[trigger] steps[k] is Stop <==> (
    received[k] is Shutdown || received[k] is Disconnected)) by {
        assert(pass_effect(states[k], states[k + 1], received[k], events[k], steps[k], notify[k]));
    }
}

proof fn lemma_run_clean(
    states: Seq<WatchState>,
    received: Seq<Received>,
    events: Seq<Seq<Option<Vec<String>>>>,
    steps: Seq<WatchStep>,
    notify: Seq<bool>,
    k: int,
)
    requires
        states.len() == received.len() + 1,
        events.len() == received.len(),
        steps.len() == received.len(),
        notify.len() == received.len(),
        !states[0].dirty,
        forall|j: int|
            0 <= j < received.len() ==> pass_effect(
                #[trigger] states[j],
                states[j + 1],
                received[j],
                events[j],
                steps[j],
                notify[j],
            ),
        0 <= k < states.len(),
    ensures
        !states[k].dirty,
    decreases k,
{
    if k > 0 {
        lemma_run_clean(states, received, events, steps, notify, k - 1);
        assert(pass_effect(
            states[k - 1],
            states[k],
            received[k - 1],
            events[k - 1],
            steps[k - 1],
            notify[k - 1],
        ));
    }
}

} // verus!
