//! Applications: supervision trees started and stopped as a unit, at most
//! one running instance of each application.
//!
//! Applications are told apart by a numeric key (one per application
//! type); each running one is kept with its name, the handle `H` of its
//! root supervisor and that supervisor's pid.
use vstd::prelude::*;
use crate::pid::Pid;
use crate::text::concat;

verus! {

/// Error type for application operations.
#[derive(Debug, Clone, PartialEq, Eq)]
pub enum ApplicationError {
    /// Application is already running.
    AlreadyStarted(String),
    /// Application is not running.
    NotRunning(String),
    /// Failed to start the application.
    StartFailed(String),
    /// Failed to stop the application.
    StopFailed(String),
}

impl ApplicationError {
    pub open spec fn spec_text(&self) -> Seq<char> {
        match self {
            ApplicationError::AlreadyStarted(name) => "application '"@ + name@ + "' is already started"@,
            ApplicationError::NotRunning(name) => "application '"@ + name@ + "' is not running"@,
            ApplicationError::StartFailed(msg) => "failed to start application: "@ + msg@,
            ApplicationError::StopFailed(msg) => "failed to stop application: "@ + msg@,
        }
    }

    /// The error message.
    pub fn to_string(&self) -> (s: String)
        ensures
            s@ == self.spec_text(),
    {
        match self {
            ApplicationError::AlreadyStarted(name) => {
                let head = concat("application '", name.as_str());
                concat(head.as_str(), "' is already started")
            },
            ApplicationError::NotRunning(name) => {
                let head = concat("application '", name.as_str());
                concat(head.as_str(), "' is not running")
            },
            ApplicationError::StartFailed(msg) => concat("failed to start application: ", msg.as_str()),
            ApplicationError::StopFailed(msg) => concat("failed to stop application: ", msg.as_str()),
        }
    }
}

/// A running application.
pub struct RunningApp<H> {
    pub name: String,
    pub handle: H,
    pub pid: Pid,
}

/// The running applications, in the order they were started.
pub struct ApplicationTable<H> {
    apps: Vec<(u64, RunningApp<H>)>,
}

/// The key of an entry.
pub open spec fn key_of<H>(e: (u64, RunningApp<H>)) -> u64 {
    e.0
}

/// Keep the entries whose key is not `key`.
pub open spec fn other_key<H>(key: u64) -> spec_fn((u64, RunningApp<H>)) -> bool {
    |e: (u64, RunningApp<H>)| e.0 != key
}

impl<H> ApplicationTable<H> {
    /// The entries, in start order.
    pub closed spec fn view(&self) -> Seq<(u64, RunningApp<H>)> {
        self.apps@
    }

    /// The keys of the running applications, in start order.
    pub open spec fn keys(&self) -> Seq<u64> {
        self.view().map_values(|e: (u64, RunningApp<H>)| e.0)
    }

    /// The application with `key` is running.
    pub open spec fn running(&self, key: u64) -> bool {
        self.keys().contains(key)
    }

    /// The entry of the running application `key`.
    pub open spec fn entry(&self, key: u64) -> RunningApp<H> {
        self.view()[self.keys().index_of(key)].1
    }

    /// Each application runs at most once.
    pub open spec fn wf(&self) -> bool {
        self.keys().no_duplicates()
    }

    /// No application runs.
    pub fn new() -> (t: ApplicationTable<H>)
        ensures
            t.wf(),
            t.view().len() == 0,
    {
        let t = ApplicationTable { apps: Vec::new() };
        assert(t.keys() =~= Seq::<u64>::empty());
        t
    }

    /// Position of `key`.
    fn find(&self, key: u64) -> (r: Option<usize>)
        requires
            self.wf(),
        ensures
            r is None <==> !self.running(key),
            r matches Some(i) ==> i < self.view().len() && self.keys()[i as int] == key && self.keys().index_of(key) == i,
    {
        let mut i: usize = 0;
        while i < self.apps.len()
            invariant
                self.wf(),
                i <= self.apps.len(),
                forall|k: int| 0 <= k < i ==> self.keys()[k] != key,
            decreases self.apps.len() - i,
        {
            if self.apps[i].0 == key {
                proof {
                    assert(self.keys()[i as int] == key);
                    assert(self.keys().contains(key));
                    let j = self.keys().index_of(key);
                    assert(self.keys()[j] == key);
                    if j != i {
                        assert(self.keys()[j] == self.keys()[i as int]);
                    }
                }
                return Some(i);
            }
            i = i + 1;
        }
        None
    }

    /// Check if an application is running.
    pub fn is_running(&self, key: u64) -> (r: bool)
        requires
            self.wf(),
        ensures
            r == self.running(key),
    {
        self.find(key).is_some()
    }

    /// Get the PID of a running application's root supervisor.
    pub fn whereis(&self, key: u64) -> (r: Option<Pid>)
        requires
            self.wf(),
        ensures
            self.running(key) ==> r == Some(self.entry(key).pid),
            !self.running(key) ==> r is None,
    {
        match self.find(key) {
            Some(i) => Some(self.apps[i].1.pid),
            None => None,
        }
    }

    /// The handle of a running application's root supervisor.
    pub fn get_handle(&self, key: u64) -> (r: Option<&H>)
        requires
            self.wf(),
        ensures
            self.running(key) ==> r == Some(&self.entry(key).handle),
            !self.running(key) ==> r is None,
    {
        match self.find(key) {
            Some(i) => Some(&self.apps[i].1.handle),
            None => None,
        }
    }

    /// Get the names of all running applications, in start order.
    pub fn which_applications(&self) -> (r: Vec<String>)
        ensures
            r@.len() == self.view().len(),
            forall|i: int| 0 <= i < r@.len() ==> #[trigger] r@[i]@ == self.view()[i].1.name@,
    {
        let mut out: Vec<String> = Vec::new();
        let mut i: usize = 0;
        while i < self.apps.len()
            invariant
                i <= self.apps.len(),
                out@.len() == i,
                forall|k: int| 0 <= k < i ==> #[trigger] out@[k]@ == self.view()[k].1.name@,
            decreases self.apps.len() - i,
        {
            out.push(self.apps[i].1.name.clone());
            i = i + 1;
        }
        out
    }

    /// Start the application `key` named `name` by calling `start_app`,
    /// unless it is running already (`AlreadyStarted(name)`, and
    /// `start_app` is not called). An error of `start_app` is returned as
    /// it is; otherwise the application is recorded as running with the
    /// handle returned, and the pid of its root supervisor is returned.
    pub fn start<F: FnOnce() -> Result<(H, Pid), ApplicationError>>(
        &mut self,
        key: u64,
        name: &str,
        start_app: F,
    ) -> (r: Result<Pid, ApplicationError>)
        requires
            old(self).wf(),
            call_requires(start_app, ()),
        ensures
            final(self).wf(),
            old(self).running(key) ==> (r matches Err(ApplicationError::AlreadyStarted(n)) && n@ == name@)
                && final(self).view() == old(self).view(),
            !old(self).running(key) ==> exists|res: Result<(H, Pid), ApplicationError>|
                #![trigger call_ensures(start_app, (), res)]
            {
                &&& call_ensures(start_app, (), res)
                &&& res matches Err(e) ==> r == Err::<Pid, ApplicationError>(e) && final(self).view() == old(self).view()
                &&& res matches Ok((h, pid)) ==> r == Ok::<Pid, ApplicationError>(pid) && final(self).view().len()
                    == old(self).view().len() + 1 && final(self).view().drop_last() == old(self).view()
                    && final(self).view().last().0 == key && final(self).view().last().1.name@ == name@
                    && final(self).view().last().1.pid == pid && final(self).view().last().1.handle == h
            },
    {
        if self.find(key).is_some() {
            return Err(ApplicationError::AlreadyStarted(name.to_owned()));
        }
        let res = start_app();
        let ghost outcome = res;
        proof {
            assert(call_ensures(start_app, (), outcome));
        }
        match res {
            Err(e) => Err(e),
            Ok((handle, pid)) => {
                let ghost before = self.view();
                self.apps.push((key, RunningApp { name: name.to_owned(), handle, pid }));
                proof {
                    assert(self.keys() =~= old(self).keys().push(key));
                    crate::seqs::lemma_push_no_duplicates(old(self).keys(), key);
                    assert(self.view().drop_last() =~= before);
                }
                Ok(pid)
            },
        }
    }

    /// Take the application `key` out of the running ones, returning its
    /// entry; the runtime then stops its supervisor. Fails with
    /// `NotRunning(name)` when it is not running.
    pub fn stop(&mut self, key: u64, name: &str) -> (r: Result<RunningApp<H>, ApplicationError>)
        requires
            old(self).wf(),
        ensures
            final(self).wf(),
            !old(self).running(key) ==> (r matches Err(ApplicationError::NotRunning(n)) && n@ == name@)
                && final(self).view() == old(self).view(),
            old(self).running(key) ==> (r matches Ok(app) && app == old(self).entry(key))
                && final(self).view() == old(self).view().remove(old(self).keys().index_of(key)),
    {
        match self.find(key) {
            None => Err(ApplicationError::NotRunning(name.to_owned())),
            Some(i) => {
                let (_, app) = self.apps.remove(i);
                proof {
                    assert(self.keys() =~= old(self).keys().remove(i as int));
                    assert forall|a: int, b: int| 0 <= a < self.keys().len() && 0 <= b < self.keys().len() && a != b implies self.keys()[a] != self.keys()[b] by {
                        let oa = if a < i { a } else { a + 1 };
                        let ob = if b < i { b } else { b + 1 };
                        assert(self.keys()[a] == old(self).keys()[oa]);
                        assert(self.keys()[b] == old(self).keys()[ob]);
                    }
                }
                Ok(app)
            },
        }
    }

    /// Forget all running applications.
    pub fn clear(&mut self)
        ensures
            final(self).wf(),
            final(self).view().len() == 0,
    {
        self.apps.clear();
        assert(self.keys() =~= Seq::<u64>::empty());
    }
}

/// Once stopped, an application is no longer running, and the others keep
/// running.
pub proof fn law_stopped_app_is_not_running<H>(t: &ApplicationTable<H>, key: u64, other: u64)
    requires
        t.wf(),
        t.running(key),
    ensures
        !t.view().remove(t.keys().index_of(key)).map_values(|e: (u64, RunningApp<H>)| e.0).contains(key),
        other != key ==> (t.view().remove(t.keys().index_of(key)).map_values(|e: (u64, RunningApp<H>)| e.0).contains(other)
            <==> t.running(other)),
{
    let i = t.keys().index_of(key);
    let ks = t.keys();
    let rest = t.view().remove(i).map_values(|e: (u64, RunningApp<H>)| e.0);
    assert(rest =~= ks.remove(i));
    assert(ks[i] == key);
    if rest.contains(key) {
        let j = choose|j: int| 0 <= j < rest.len() && rest[j] == key;
        let oj = if j < i { j } else { j + 1 };
        assert(ks[oj] == key);
    }
    if other != key {
        if rest.contains(other) {
            let j = choose|j: int| 0 <= j < rest.len() && rest[j] == other;
            let oj = if j < i { j } else { j + 1 };
            assert(ks[oj] == other);
        }
        if ks.contains(other) {
            let j = choose|j: int| 0 <= j < ks.len() && ks[j] == other;
            assert(j != i);
            let rj = if j < i { j } else { j - 1 };
            assert(rest[rj] == other);
        }
    }
}

} // verus!
