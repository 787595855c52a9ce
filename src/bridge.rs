use vstd::prelude::*;
use vstd::utf8::{decode_utf8, valid_utf8};

use crate::mime::str_equals;

verus! {

/// A request from the hosted page to run a native program.
pub struct CommandInvocation {
    /// Correlation token chosen by the caller.
    pub id: String,
    /// The program followed by its arguments.
    pub command: Vec<String>,
}

/// The answer to one invocation, tagged with the invocation's token.
pub struct CommandOutcome {
    pub id: String,
    pub stdout: String,
    pub stderr: String,
    pub exit_code: i32,
    pub error: Option<String>,
}

/// What running a dispatched program came to.
pub enum ProcessReport {
    /// The program ran and ended; `code` is `None` when it was ended by a signal.
    Exited { stdout: Vec<u8>, stderr: Vec<u8>, code: Option<i32> },
    /// The program could not be started; `reason` is the system's description.
    SpawnFailed { reason: String },
}

/// Work handed to a worker: run `program` with `args` as discrete arguments.
pub struct Dispatch {
    pub id: String,
    pub program: String,
    pub args: Vec<String>,
}

/// What the bridge does with a received invocation.
pub enum Reception {
    /// Registered as pending; the worker is to run it.
    Dispatched(Dispatch),
    /// Refused at once, with the outcome to deliver; nothing is registered.
    Rejected(CommandOutcome),
}

/// Why an invocation is refused before anything is run.
#[derive(PartialEq, Eq, Structural, Clone, Copy, Debug)]
pub enum Refusal {
    EmptyCommand,
    MissingId,
    EmptyProgram,
    DuplicateId,
}

/// Text that `String::from_utf8_lossy` makes of the bytes `b`.
pub uninterp spec fn lossy_text(b: Seq<u8>) -> Seq<char>;

/// Relies on `String::from_utf8_lossy`: valid UTF-8 is decoded as it is, and
/// invalid sequences are replaced rather than reported.
#[verifier::external_body]
fn decode_lossy(b: &Vec<u8>) -> (r: String)
    ensures
        r@ == lossy_text(b@),
        valid_utf8(b@) ==> r@ == decode_utf8(b@),
{
    String::from_utf8_lossy(b.as_slice()).into_owned()
}

/// The views of a sequence of strings.
pub open spec fn views(v: Seq<String>) -> Seq<Seq<char>> {
    v.map_values(|s: String| s@)
}

/// Why an invocation with token `id` and command `command` is refused while
/// the tokens in `pending` are live, or `None` when it is accepted.
pub open spec fn refusal_of(pending: Set<Seq<char>>, id: Seq<char>, command: Seq<Seq<char>>) -> Option<Refusal> {
    if command.len() == 0 {
        Some(Refusal::EmptyCommand)
    } else if id.len() == 0 {
        Some(Refusal::MissingId)
    } else if command[0].len() == 0 {
        Some(Refusal::EmptyProgram)
    } else if pending.contains(id) {
        Some(Refusal::DuplicateId)
    } else {
        None
    }
}

/// The live tokens after an invocation is received.
pub open spec fn after_receive(pending: Set<Seq<char>>, id: Seq<char>, command: Seq<Seq<char>>) -> Set<Seq<char>> {
    if refusal_of(pending, id, command) is None {
        pending.insert(id)
    } else {
        pending
    }
}

/// Whether completing the work for `id` yields an outcome to deliver.
pub open spec fn answers(pending: Set<Seq<char>>, id: Seq<char>) -> bool {
    pending.contains(id)
}

/// The live tokens after the work for `id` comes back.
pub open spec fn after_complete(pending: Set<Seq<char>>, id: Seq<char>) -> Set<Seq<char>> {
    pending.remove(id)
}

/// The error text of a refusal.
pub open spec fn refusal_error(why: Refusal) -> Seq<char> {
    match why {
        Refusal::EmptyCommand => "Empty command"@,
        Refusal::MissingId => "Missing id"@,
        Refusal::EmptyProgram => "Empty program"@,
        Refusal::DuplicateId => "Duplicate id"@,
    }
}

/// The standard-error text of a refusal.
pub open spec fn refusal_stderr(why: Refusal) -> Seq<char> {
    match why {
        Refusal::EmptyCommand => "Command array is empty"@,
        _ => Seq::empty(),
    }
}

/// The outcome that reports `report` for the token `id`.
pub open spec fn report_matches(o: CommandOutcome, id: Seq<char>, report: ProcessReport) -> bool {
    &&& o.id@ == id
    &&& match report {
        ProcessReport::Exited { stdout, stderr, code } => {
            &&& o.stdout@ == lossy_text(stdout@)
            &&& o.stderr@ == lossy_text(stderr@)
            &&& valid_utf8(stdout@) ==> o.stdout@ == decode_utf8(stdout@)
            &&& valid_utf8(stderr@) ==> o.stderr@ == decode_utf8(stderr@)
            &&& o.exit_code == (match code {
                Some(c) => c as int,
                None => -1,
            })
            &&& o.error is None
        },
        ProcessReport::SpawnFailed { reason } => {
            &&& o.stdout@ == Seq::<char>::empty()
            &&& o.stderr@ == Seq::<char>::empty()
            &&& o.exit_code == -1
            &&& o.error matches Some(e) && e@ == reason@
        },
    }
}

/// The outcome that reports `why` for the token `id`.
pub open spec fn refusal_matches(o: CommandOutcome, id: Seq<char>, why: Refusal) -> bool {
    &&& o.id@ == id
    &&& o.stdout@ == Seq::<char>::empty()
    &&& o.stderr@ == refusal_stderr(why)
    &&& o.exit_code == 1
    &&& o.error matches Some(e) && e@ == refusal_error(why)
}

/// The outcome that reports a finished or failed process for the token `id`.
pub fn outcome_from_report(id: String, report: ProcessReport) -> (r: CommandOutcome)
    ensures
        report_matches(r, id@, report),
{
    match report {
        ProcessReport::Exited { stdout, stderr, code } => {
            let exit_code: i32 = match code {
                Some(c) => c,
                None => -1,
            };
            CommandOutcome {
                id,
                stdout: decode_lossy(&stdout),
                stderr: decode_lossy(&stderr),
                exit_code,
                error: None,
            }
        },
        ProcessReport::SpawnFailed { reason } => CommandOutcome {
            id,
            stdout: String::new(),
            stderr: String::new(),
            exit_code: -1,
            error: Some(reason),
        },
    }
}

/// The outcome that reports the refusal `why` for the token `id`.
pub fn refusal_outcome(id: String, why: Refusal) -> (r: CommandOutcome)
    ensures
        refusal_matches(r, id@, why),
{
    let (stderr, error) = match why {
        Refusal::EmptyCommand => (
            String::from_str("Command array is empty"),
            String::from_str("Empty command"),
        ),
        Refusal::MissingId => (String::new(), String::from_str("Missing id")),
        Refusal::EmptyProgram => (String::new(), String::from_str("Empty program")),
        Refusal::DuplicateId => (String::new(), String::from_str("Duplicate id")),
    };
    CommandOutcome { id, stdout: String::new(), stderr, exit_code: 1, error: Some(error) }
}

/// The outcome for a message that could not be read as an invocation at all.
/// Its token is empty, since none could be read.
pub fn malformed_outcome(reason: String) -> (r: CommandOutcome)
    ensures
        r.id@ == Seq::<char>::empty(),
        r.stdout@ == Seq::<char>::empty(),
        r.stderr@ == Seq::<char>::empty(),
        r.exit_code == 1,
        r.error matches Some(e) && e@ == reason@,
{
    CommandOutcome {
        id: String::new(),
        stdout: String::new(),
        stderr: String::new(),
        exit_code: 1,
        error: Some(reason),
    }
}

/// The table of pending invocations: the tokens whose work is running.
pub struct Bridge {
    pending: Vec<String>,
}

impl Bridge {
    /// The tokens of the invocations that are dispatched and not yet answered.
    pub closed spec fn pending_ids(&self) -> Set<Seq<char>> {
        Set::new(|s: Seq<char>| exists|i: int| 0 <= i < self.pending@.len() && self.pending@[i]@ == s)
    }

    /// At most one live entry per token.
    pub closed spec fn wf(&self) -> bool {
        forall|i: int, j: int|
            0 <= i < self.pending@.len() && 0 <= j < self.pending@.len() && i != j
                ==> self.pending@[i]@ != self.pending@[j]@
    }

    /// A bridge with nothing pending.
    pub fn new() -> (r: Bridge)
        ensures
            r.wf(),
            r.pending_ids() == Set::<Seq<char>>::empty(),
    {
        let r = Bridge { pending: Vec::new() };
        assert(r.pending_ids() =~= Set::<Seq<char>>::empty());
        r
    }

    /// Whether an invocation with token `id` is pending.
    pub fn is_pending(&self, id: &str) -> (r: bool)
        ensures
            r == self.pending_ids().contains(id@),
    {
        self.position(id).is_some()
    }

    /// Number of pending invocations.
    pub fn pending_count(&self) -> (r: usize)
        requires
            self.wf(),
        ensures
            r == self.pending_ids().len(),
    {
        proof {
            self.lemma_len();
        }
        self.pending.len()
    }

    proof fn lemma_len(&self)
        requires
            self.wf(),
        ensures
            self.pending_ids().finite(),
            self.pending_ids().len() == self.pending@.len(),
    {
        let v = views(self.pending@);
        assert forall|s: Seq<char>| self.pending_ids().contains(s) implies v.to_set().contains(s) by {
            let i = choose|i: int| 0 <= i < self.pending@.len() && self.pending@[i]@ == s;
            assert(v[i] == s);
        }
        assert forall|s: Seq<char>| v.to_set().contains(s) implies self.pending_ids().contains(s) by {
            let i = choose|i: int| 0 <= i < v.len() && v[i] == s;
            assert(self.pending@[i]@ == s);
        }
        assert(self.pending_ids() =~= v.to_set());
        assert(v.no_duplicates());
        v.unique_seq_to_set();
    }

    fn position(&self, id: &str) -> (r: Option<usize>)
        ensures
            r is None <==> !self.pending_ids().contains(id@),
            r matches Some(k) ==> k < self.pending@.len() && self.pending@[k as int]@ == id@,
    {
        let mut i: usize = 0;
        while i < self.pending.len()
            invariant
                i <= self.pending@.len(),
                forall|j: int| 0 <= j < i ==> self.pending@[j]@ != id@,
            decreases self.pending@.len() - i,
        {
            if str_equals(self.pending[i].as_str(), id) {
                return Some(i);
            }
            i = i + 1;
        }
        None
    }

    /// Takes in an invocation. A well-formed one with a token that is not
    /// live is registered and handed back as work to run; any other is
    /// refused with an outcome to deliver at once, and nothing is registered.
    pub fn receive(&mut self, inv: CommandInvocation) -> (r: Reception)
        requires
            old(self).wf(),
        ensures
            final(self).wf(),
            final(self).pending_ids() == after_receive(
                old(self).pending_ids(),
                inv.id@,
                views(inv.command@),
            ),
            r is Dispatched <==> refusal_of(old(self).pending_ids(), inv.id@, views(inv.command@)) is None,
            r matches Reception::Dispatched(d) ==> {
                &&& d.id@ == inv.id@
                &&& d.program@ == inv.command@[0]@
                &&& views(d.args@) == views(inv.command@).drop_first()
            },
            r matches Reception::Rejected(o) ==> (refusal_of(
                old(self).pending_ids(),
                inv.id@,
                views(inv.command@),
            ) matches Some(why) && refusal_matches(o, inv.id@, why)),
    {
        let CommandInvocation { id, command } = inv;
        let ghost cmd = views(command@);
        if command.len() == 0 {
            return Reception::Rejected(refusal_outcome(id, Refusal::EmptyCommand));
        }
        if id.as_str().unicode_len() == 0 {
            return Reception::Rejected(refusal_outcome(id, Refusal::MissingId));
        }
        if command[0].as_str().unicode_len() == 0 {
            return Reception::Rejected(refusal_outcome(id, Refusal::EmptyProgram));
        }
        if self.position(id.as_str()).is_some() {
            return Reception::Rejected(refusal_outcome(id, Refusal::DuplicateId));
        }
        let ghost before = self.pending@;
        self.pending.push(id.clone());
        assert(self.pending_ids() =~= old(self).pending_ids().insert(id@)) by {
            assert(forall|j: int| 0 <= j < before.len() ==> self.pending@[j] == before[j]);
            assert(self.pending@[before.len() as int] == id);
        }
        let mut args = command;
        let program = args.remove(0);
        assert(views(args@) =~= cmd.drop_first());
        Reception::Dispatched(Dispatch { id, program, args })
    }

    /// Closes the bridge: every pending entry is dropped, and the tokens that
    /// were still waiting are handed back so that each can still be answered.
    pub fn shutdown(&mut self) -> (r: Vec<String>)
        requires
            old(self).wf(),
        ensures
            final(self).wf(),
            final(self).pending_ids() == Set::<Seq<char>>::empty(),
            views(r@).to_set() == old(self).pending_ids(),
            views(r@).no_duplicates(),
    {
        let mut taken: Vec<String> = Vec::new();
        core::mem::swap(&mut taken, &mut self.pending);
        let ghost v = views(taken@);
        assert forall|s: Seq<char>| old(self).pending_ids().contains(s) implies v.to_set().contains(s) by {
            let i = choose|i: int| 0 <= i < taken@.len() && taken@[i]@ == s;
            assert(v[i] == s);
        }
        assert forall|s: Seq<char>| v.to_set().contains(s) implies old(self).pending_ids().contains(s) by {
            let i = choose|i: int| 0 <= i < v.len() && v[i] == s;
            assert(taken@[i]@ == s);
        }
        assert(v.to_set() =~= old(self).pending_ids());
        assert(self.pending_ids() =~= Set::<Seq<char>>::empty());
        taken
    }

    /// Takes back the report of the work for `id`. When `id` is pending its
    /// entry is removed and the outcome to deliver is returned; otherwise
    /// nothing is delivered and the table is unchanged.
    pub fn complete(&mut self, id: &str, report: ProcessReport) -> (r: Option<CommandOutcome>)
        requires
            old(self).wf(),
        ensures
            final(self).wf(),
            final(self).pending_ids() == after_complete(old(self).pending_ids(), id@),
            r is Some <==> answers(old(self).pending_ids(), id@),
            r matches Some(o) ==> report_matches(o, id@, report),
    {
        match self.position(id) {
            None => {
                assert(self.pending_ids() =~= old(self).pending_ids().remove(id@));
                None
            },
            Some(k) => {
                let ghost before = self.pending@;
                self.pending.remove(k);
                assert(self.pending_ids() =~= old(self).pending_ids().remove(id@)) by {
                    assert forall|s: Seq<char>| self.pending_ids().contains(s) implies old(
                        self,
                    ).pending_ids().remove(id@).contains(s) by {
                        let j = choose|j: int| 0 <= j < self.pending@.len() && self.pending@[j]@ == s;
                        let oj = if j < k { j } else { j + 1 };
                        assert(before[oj]@ == s);
                    }
                    assert forall|s: Seq<char>| old(self).pending_ids().remove(id@).contains(s) implies self.pending_ids().contains(s) by {
                        let j = choose|j: int| 0 <= j < before.len() && before[j]@ == s;
                        assert(j != k);
                        let nj = if j < k { j } else { j - 1 };
                        assert(self.pending@[nj]@ == s);
                    }
                }
                Some(outcome_from_report(String::from_str(id), report))
            },
        }
    }
}

/// An invocation whose token is not live is answered exactly once. A refused
/// one is answered at once and never by a completion; an accepted one is not
/// answered at once, is answered by the first completion of its token, and by
/// no later one.
pub proof fn lemma_unseen_id_answered_once(
    pending: Set<Seq<char>>,
    id: Seq<char>,
    command: Seq<Seq<char>>,
)
    requires
        !pending.contains(id),
    ensures
        refusal_of(pending, id, command) is Some ==> !answers(
            after_receive(pending, id, command),
            id,
        ),
        refusal_of(pending, id, command) is None ==> {
            &&& answers(after_receive(pending, id, command), id)
            &&& !answers(after_complete(after_receive(pending, id, command), id), id)
        },
{
}

/// Two accepted invocations with distinct tokens are both answered, whichever
/// of them completes first: completing one never consumes the other's entry.
pub proof fn lemma_distinct_ids_both_answered(
    pending: Set<Seq<char>>,
    a: Seq<char>,
    command_a: Seq<Seq<char>>,
    b: Seq<char>,
    command_b: Seq<Seq<char>>,
)
    requires
        a != b,
        refusal_of(pending, a, command_a) is None,
        refusal_of(after_receive(pending, a, command_a), b, command_b) is None,
    ensures
        ({
            let both = after_receive(after_receive(pending, a, command_a), b, command_b);
            &&& answers(both, a)
            &&& answers(after_complete(both, a), b)
            &&& answers(both, b)
            &&& answers(after_complete(both, b), a)
        }),
{
}

} // verus!
