//! The process supervisor: which commands are running, which are about to be
//! started, and what has to be terminated when the set is replaced.
//!
//! The supervisor decides; the caller acts. Replacing the set hands back every
//! running process to terminate; once the caller reports them gone, it offers
//! the new commands to start, one by one, in order. Each handle `H` is
//! whatever the caller uses to reach a child.
use vstd::prelude::*;

verus! {

/// Milliseconds to wait after the kill requests before the set counts as gone.
pub const GRACE_MS: u64 = 1000;

/// The platform whose shell runs the commands.
#[derive(Clone, Copy, PartialEq, Eq, Debug, Structural)]
pub enum Platform {
    Unix,
    Windows,
}

/// The shell program and the argument that precedes the command line.
pub open spec fn shell_of(platform: Platform) -> (Seq<char>, Seq<char>) {
    match platform {
        Platform::Unix => ("sh"@, "-c"@),
        Platform::Windows => ("cmd"@, "/C"@),
    }
}

/// A program to start and its arguments.
#[derive(Clone, Debug, PartialEq, Eq)]
pub struct Launch {
    pub program: String,
    pub args: Vec<String>,
}

/// `l` runs the command line `cmd` through the shell of `platform`.
pub open spec fn launches(l: Launch, platform: Platform, cmd: Seq<char>) -> bool {
    &&& l.program@ == shell_of(platform).0
    &&& l.args@.len() == 2
    &&& l.args@[0]@ == shell_of(platform).1
    &&& l.args@[1]@ == cmd
}

/// How `cmd` is started on `platform`: through the shell, so that it may use
/// pipes, redirections and variables.
pub fn shell_invocation(platform: Platform, cmd: &String) -> (r: Launch)
    ensures
        launches(r, platform, cmd@),
{
    let (program, flag) = match platform {
        Platform::Unix => ("sh".to_owned(), "-c".to_owned()),
        Platform::Windows => ("cmd".to_owned(), "/C".to_owned()),
    };
    let mut args: Vec<String> = Vec::new();
    args.push(flag);
    args.push(cmd.clone());
    Launch { program, args }
}

/// A running child and the command line it was started from.
pub struct Supervised<H> {
    pub cmd: String,
    pub handle: H,
}

/// The command lines of `ps`, in order.
pub open spec fn commands_of<H>(ps: Seq<Supervised<H>>) -> Seq<Seq<char>> {
    ps.map_values(|p: Supervised<H>| p.cmd@)
}

/// The views of `cmds`, in order.
pub open spec fn lines_of(cmds: Seq<String>) -> Seq<Seq<char>> {
    cmds.map_values(|c: String| c@)
}

/// What the supervisor holds: the command lines running, in the order they
/// were started, those still to start, in order, and whether a terminated
/// set is still on its way out.
pub struct SupervisorView {
    pub live: Seq<Seq<char>>,
    pub pending: Seq<Seq<char>>,
    /// Processes were handed out for termination and the caller has not yet
    /// reported them gone; nothing starts meanwhile.
    pub draining: bool,
}

/// Everything handed out for termination: nothing running, nothing to start.
pub open spec fn after_kill(s: SupervisorView) -> SupervisorView {
    SupervisorView { live: Seq::empty(), pending: Seq::empty(), draining: s.draining || s.live.len() > 0 }
}

/// The set replaced by `cmds`: the old one handed out for termination, `cmds`
/// to start once it is gone.
pub open spec fn after_replace(s: SupervisorView, cmds: Seq<Seq<char>>) -> SupervisorView {
    SupervisorView { live: Seq::empty(), pending: cmds, draining: s.draining || s.live.len() > 0 }
}

/// The caller reported the terminated processes gone, grace period included.
pub open spec fn after_terminated(s: SupervisorView) -> SupervisorView {
    SupervisorView { draining: false, ..s }
}

/// The next pending command started.
pub open spec fn after_start(s: SupervisorView) -> SupervisorView {
    SupervisorView { live: s.live.push(s.pending[0]), pending: s.pending.drop_first(), draining: s.draining }
}

/// `n` pending commands started, one after the other.
pub open spec fn after_starts(s: SupervisorView, n: nat) -> SupervisorView
    decreases n,
{
    if n == 0 {
        s
    } else {
        after_starts(after_start(s), (n - 1) as nat)
    }
}

/// The processes to terminate, all at once, before anything else starts.
pub struct Shutdown<H> {
    pub victims: Vec<Supervised<H>>,
    /// Processes handed out by an earlier shutdown were not reported gone
    /// (that shutdown was cut short), so the grace period is still owed.
    pub unsettled: bool,
}

impl<H> Shutdown<H> {
    /// Whether there is nothing to do. When there is not, the shutdown is
    /// silent and takes no time.
    pub fn is_empty(&self) -> (r: bool)
        ensures
            r == (self.victims@.len() == 0 && !self.unsettled),
    {
        self.victims.len() == 0 && !self.unsettled
    }

    /// How long to wait, once every kill request is out, for the children to
    /// go and their last output to drain.
    pub fn grace_ms(&self) -> (r: u64)
        ensures
            r == (if self.victims@.len() == 0 && !self.unsettled {
                0
            } else {
                GRACE_MS
            }),
    {
        if self.victims.len() == 0 && !self.unsettled {
            0
        } else {
            GRACE_MS
        }
    }
}

/// The supervisor of one command set.
pub struct ProcessManager<H> {
    platform: Platform,
    processes: Vec<Supervised<H>>,
    pending: Vec<String>,
    next: usize,
    draining: bool,
}

impl<H> View for ProcessManager<H> {
    type V = SupervisorView;

    closed spec fn view(&self) -> SupervisorView {
        SupervisorView {
            live: commands_of(self.processes@),
            pending: lines_of(self.pending@).subrange(self.next as int, self.pending@.len() as int),
            draining: self.draining,
        }
    }
}

impl<H> ProcessManager<H> {
    /// The running children, in the order they were started.
    pub closed spec fn members(&self) -> Seq<Supervised<H>> {
        self.processes@
    }

    /// The platform whose shell starts the commands.
    pub closed spec fn platform_spec(&self) -> Platform {
        self.platform
    }

    pub closed spec fn wf(&self) -> bool {
        self.next <= self.pending@.len()
    }

    /// A supervisor with nothing running, that starts commands through the
    /// shell of `platform`.
    pub fn new(platform: Platform) -> (r: Self)
        ensures
            r.wf(),
            r@ == (SupervisorView { live: Seq::empty(), pending: Seq::empty(), draining: false }),
            r.platform_spec() == platform,
    {
        let r = ProcessManager { platform, processes: Vec::new(), pending: Vec::new(), next: 0, draining: false };
        assert(r@.live =~= Seq::<Seq<char>>::empty());
        assert(r@.pending =~= Seq::<Seq<char>>::empty());
        r
    }

    /// Number of running children.
    pub fn len(&self) -> (r: usize)
        ensures
            r == self@.live.len(),
    {
        self.processes.len()
    }

    /// Takes every running child out for termination and forgets what was
    /// still to start. On an empty set this changes nothing and hands back
    /// nothing to do. Until `terminated`, nothing starts.
    pub fn kill_all(&mut self) -> (r: Shutdown<H>)
        requires
            old(self).wf(),
        ensures
            final(self).wf(),
            final(self)@ == after_kill(old(self)@),
            final(self).platform_spec() == old(self).platform_spec(),
            r.victims@ == old(self).members(),
            commands_of(r.victims@) == old(self)@.live,
            r.unsettled == old(self)@.draining,
            old(self)@.live.len() == 0 ==> r.victims@.len() == 0,
    {
        let mut victims: Vec<Supervised<H>> = Vec::new();
        core::mem::swap(&mut victims, &mut self.processes);
        let unsettled = self.draining;
        self.draining = self.draining || victims.len() > 0;
        self.pending = Vec::new();
        self.next = 0;
        assert(self@.live =~= Seq::<Seq<char>>::empty());
        assert(self@.pending =~= Seq::<Seq<char>>::empty());
        Shutdown { victims, unsettled }
    }

    /// Replaces the set by `cmds`: everything running is handed back for
    /// termination. None of `cmds` is offered to start before the caller has
    /// reported those processes gone with `terminated`, so that two
    /// generations of the set never run side by side.
    pub fn spawn_cmds(&mut self, cmds: &Vec<String>) -> (r: Shutdown<H>)
        requires
            old(self).wf(),
        ensures
            final(self).wf(),
            final(self)@ == after_replace(old(self)@, lines_of(cmds@)),
            final(self).platform_spec() == old(self).platform_spec(),
            r.victims@ == old(self).members(),
            commands_of(r.victims@) == old(self)@.live,
            r.unsettled == old(self)@.draining,
    {
        let r = self.kill_all();
        let mut pending: Vec<String> = Vec::new();
        let mut i: usize = 0;
        while i < cmds.len()
            invariant
                0 <= i <= cmds@.len(),
                pending@ == cmds@.subrange(0, i as int),
            decreases cmds.len() - i,
        {
            pending.push(cmds[i].clone());
            i = i + 1;
            assert(pending@ =~= cmds@.subrange(0, i as int));
        }
        assert(pending@ =~= cmds@);
        self.pending = pending;
        self.next = 0;
        assert(self@.pending =~= lines_of(cmds@));
        r
    }

    /// How to start the next pending command, if any is left.
    pub fn next_launch(&self) -> (r: Option<Launch>)
        requires
            self.wf(),
        ensures
            self@.draining || self@.pending.len() == 0 ==> r is None,
            !self@.draining && self@.pending.len() > 0 ==> r is Some && launches(
                r->0,
                self.platform_spec(),
                self@.pending[0],
            ),
    {
        if !self.draining && self.next < self.pending.len() {
            Some(shell_invocation(self.platform, &self.pending[self.next]))
        } else {
            None
        }
    }

    /// The next pending command has started as `handle`.
    pub fn started(&mut self, handle: H)
        requires
            old(self).wf(),
            !old(self)@.draining,
            old(self)@.pending.len() > 0,
        ensures
            final(self).wf(),
            final(self)@ == after_start(old(self)@),
            final(self).platform_spec() == old(self).platform_spec(),
            final(self).members() == old(self).members().push(final(self).members().last()),
            final(self).members().last().handle == handle,
    {
        let ghost before = self@;
        assert(lines_of(self.pending@).subrange(self.next as int, self.pending@.len() as int).len() > 0);
        let count = self.pending.len();
        assert(self.next < count);
        let cmd = self.pending[self.next].clone();
        self.processes.push(Supervised { cmd, handle });
        self.next = self.next + 1;
        assert(self@.live =~= before.live.push(before.pending[0]));
        assert(self@.pending =~= before.pending.drop_first());
    }

    /// The caller has terminated every process handed out and waited the
    /// grace period: pending commands may start now.
    pub fn terminated(&mut self)
        requires
            old(self).wf(),
        ensures
            final(self).wf(),
            final(self)@ == after_terminated(old(self)@),
            final(self).platform_spec() == old(self).platform_spec(),
            final(self).members() == old(self).members(),
    {
        self.draining = false;
    }
}

/// Starting every pending command puts them, in order, after those running.
pub proof fn lemma_start_all(s: SupervisorView)
    ensures
        after_starts(s, s.pending.len()).live == s.live + s.pending,
        after_starts(s, s.pending.len()).pending.len() == 0,
        after_starts(s, s.pending.len()).draining == s.draining,
    decreases s.pending.len(),
{
    if s.pending.len() == 0 {
        assert(s.live + s.pending =~= s.live);
    } else {
        let t = after_start(s);
        lemma_start_all(t);
        assert(t.live + t.pending =~= s.live + s.pending);
    }
}

/// Replacing the set twice in a row, each time reporting the old set gone
/// and then starting every command: after the first replacement exactly
/// `first` runs; the second hands exactly those out for termination and
/// holds `second` back until they are reported gone; after it exactly
/// `second` runs, so that no command of `first` that is not also in `second`
/// is left running.
pub proof fn lemma_replace_twice(s: SupervisorView, first: Seq<Seq<char>>, second: Seq<Seq<char>>)
    ensures
        ({
            let s1 = after_starts(after_terminated(after_replace(s, first)), first.len());
            let r2 = after_replace(s1, second);
            let s2 = after_starts(after_terminated(r2), second.len());
            &&& s1.live == first
            &&& first.len() > 0 ==> r2.draining
            &&& s2.live == second
            &&& s2.pending.len() == 0
            &&& !s2.draining
            &&& forall|c: Seq<char>| first.contains(c) && !second.contains(c) ==> !s2.live.contains(c)
        }),
{
    let r1 = after_terminated(after_replace(s, first));
    lemma_start_all(r1);
    assert(r1.live + r1.pending =~= first);
    let s1 = after_starts(r1, first.len());
    let r2 = after_terminated(after_replace(s1, second));
    lemma_start_all(r2);
    assert(r2.live + r2.pending =~= second);
}

/// Terminating an empty set with nothing pending leaves it as it was.
pub proof fn lemma_kill_idle(s: SupervisorView)
    requires
        s.live.len() == 0,
        s.pending.len() == 0,
        !s.draining,
    ensures
        after_kill(s) == s,
{
    assert(after_kill(s).live =~= s.live);
    assert(after_kill(s).pending =~= s.pending);
}

/// One line of a child's output, with the command line it came from.
#[derive(Clone, Debug, PartialEq, Eq)]
pub struct TaggedLine {
    pub tag: String,
    pub text: String,
}

/// Tags the lines of one output stream of a child: every line carries the
/// command line the child was started from.
pub struct StreamLabel {
    label: String,
}

impl StreamLabel {
    pub closed spec fn label_spec(&self) -> Seq<char> {
        self.label@
    }

    /// A stream of the child started from `cmd`.
    pub fn new(cmd: &String) -> (r: Self)
        ensures
            r.label_spec() == cmd@,
    {
        StreamLabel { label: cmd.clone() }
    }

    /// The line `line` of the stream, tagged with its command line.
    pub fn tag(&self, line: String) -> (r: TaggedLine)
        ensures
            r.tag@ == self.label_spec(),
            r.text@ == line@,
    {
        TaggedLine { tag: self.label.clone(), text: line }
    }
}

} // verus!
