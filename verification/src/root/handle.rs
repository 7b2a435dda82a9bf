//! What hosts do with single processes and with the root as a whole.
use crate::api::{ErrorView, ExitStatus, PsyError};
use crate::process;
use crate::process::{EntryView, ProcessState};
use crate::root;
use crate::root::input;
use crate::root::input::WriteResult;
use crate::root::{RootView, SharedRoot};
use crate::text;
use vstd::prelude::*;

verus! {

/// How a process ended, once it has; `None` while it runs.
pub open spec fn exit_of(r: RootView, name: Seq<char>) -> Result<
    Option<(Option<i32>, Option<Seq<char>>)>,
    ErrorView,
> {
    if !r.table.dom().contains(name) {
        Err(ErrorView::NotFound(name))
    } else if r.table[name].state == ProcessState::Running {
        Ok(None)
    } else {
        Ok(Some((r.table[name].exit_status, r.table[name].signal)))
    }
}

/// The process id that a kill goes to.
pub open spec fn kill_target(r: RootView, name: Seq<char>) -> Result<u32, ErrorView> {
    if r.table.dom().contains(name) && r.table[name].pid is Some {
        Ok(r.table[name].pid->0)
    } else {
        Err(ErrorView::NotFound(name))
    }
}

/// The answer for a process that was not started for input.
pub open spec fn not_interactive(name: Seq<char>) -> ErrorView {
    ErrorView::Other("process '"@ + name + "' was not started in interactive mode"@)
}

/// Why a host cannot write to a process, where it cannot.
pub open spec fn write_refusal(r: RootView, name: Seq<char>) -> Option<ErrorView> {
    if !r.table.dom().contains(name) {
        Some(ErrorView::NotFound(name))
    } else if r.table[name].state != ProcessState::Running {
        Some(ErrorView::Other(root::not_running(name)))
    } else if !r.table[name].interactive {
        Some(not_interactive(name))
    } else if r.table[name].stdin_closed {
        Some(ErrorView::Other(input::stdin_is_closed(name)))
    } else if !r.table[name].stdin_open {
        Some(ErrorView::Other("no stdin handle for '"@ + name + "'"@))
    } else {
        None
    }
}

/// Why a host cannot close the stdin of a process, where it cannot.
pub open spec fn close_refusal(r: RootView, name: Seq<char>) -> Option<ErrorView> {
    if !r.table.dom().contains(name) {
        Some(ErrorView::NotFound(name))
    } else if !r.table[name].interactive {
        Some(not_interactive(name))
    } else {
        None
    }
}

/// The code that a process adds to that of a root which shuts down: that of a
/// process that has failed, and 0 for any other.
pub open spec fn failure_code(e: EntryView) -> i32 {
    if e.state == ProcessState::Failed {
        match e.exit_status {
            Some(c) => c,
            None => 1,
        }
    } else {
        0
    }
}

/// The first code that is not 0.
pub open spec fn first_failure(table: Map<Seq<char>, EntryView>, names: Seq<Seq<char>>) -> i32
    decreases names.len(),
{
    if names.len() == 0 {
        0
    } else if failure_code(table[names[0]]) != 0 {
        failure_code(table[names[0]])
    } else {
        first_failure(table, names.skip(1))
    }
}

impl SharedRoot {
    /// Tells how a process ended, where it no longer runs.
    pub fn exit_status(&self, name: &str) -> (r: Result<Option<ExitStatus>, PsyError>)
        ensures
            match r {
                Ok(None) => exit_of(self@, name@) == Ok::<
                    Option<(Option<i32>, Option<Seq<char>>)>,
                    ErrorView,
                >(None),
                Ok(Some(s)) => exit_of(self@, name@) == Ok::<
                    Option<(Option<i32>, Option<Seq<char>>)>,
                    ErrorView,
                >(Some((s.exit_code, text::opt_text(s.signal)))),
                Err(e) => exit_of(self@, name@) == Err::<
                    Option<(Option<i32>, Option<Seq<char>>)>,
                    ErrorView,
                >(e@),
            },
    {
        match self.entry(name) {
            None => Err(PsyError::NotFound { name: text::copy(name) }),
            Some(e) => {
                if e.state == ProcessState::Running {
                    Ok(None)
                } else {
                    Ok(
                        Some(
                            ExitStatus {
                                exit_code: e.exit_status,
                                signal: process::copy_opt(&e.signal),
                            },
                        ),
                    )
                }
            },
        }
    }

    /// Finds the process id that a kill goes to.
    pub fn pid_to_kill(&self, name: &str) -> (r: Result<u32, PsyError>)
        ensures
            match r {
                Ok(p) => kill_target(self@, name@) == Ok::<u32, ErrorView>(p),
                Err(e) => kill_target(self@, name@) == Err::<u32, ErrorView>(e@),
            },
    {
        match self.entry(name) {
            Some(e) => match e.pid {
                Some(p) => Ok(p),
                None => Err(PsyError::NotFound { name: text::copy(name) }),
            },
            None => Err(PsyError::NotFound { name: text::copy(name) }),
        }
    }

    /// Tests whether a host may write to a process.
    pub fn begin_write(&self, name: &str) -> (r: Result<(), PsyError>)
        ensures
            match r {
                Ok(_) => write_refusal(self@, name@) is None,
                Err(e) => write_refusal(self@, name@) == Some(e@),
            },
    {
        match self.entry(name) {
            None => Err(PsyError::NotFound { name: text::copy(name) }),
            Some(e) => {
                if e.state != ProcessState::Running {
                    Err(PsyError::Other(text::concat3("process '", name, "' is not running")))
                } else if !e.interactive {
                    Err(
                        PsyError::Other(
                            text::concat3(
                                "process '",
                                name,
                                "' was not started in interactive mode",
                            ),
                        ),
                    )
                } else if e.stdin_closed {
                    Err(PsyError::Other(text::concat3("stdin for '", name, "' has been closed")))
                } else if !e.stdin_open {
                    Err(PsyError::Other(text::concat3("no stdin handle for '", name, "'")))
                } else {
                    Ok(())
                }
            },
        }
    }

    /// Closes the stdin of a process, for good.
    pub fn close_stdin(&mut self, name: &str) -> (r: Result<(), PsyError>)
        ensures
            match r {
                Ok(_) => close_refusal(old(self)@, name@) is None && final(self)@
                    == root::with_entry(
                    old(self)@,
                    name@,
                    input::closed_entry(old(self)@.table[name@]),
                ),
                Err(e) => close_refusal(old(self)@, name@) == Some(e@) && final(self)@
                    == old(self)@,
            },
            final(self).names() == old(self).names(),
    {
        let ghost before = self@;
        let ghost names = self.names();
        match self.find(name) {
            None => Err(PsyError::NotFound { name: text::copy(name) }),
            Some(i) => {
                if !self.nth(i).interactive {
                    return Err(
                        PsyError::Other(
                            text::concat3(
                                "process '",
                                name,
                                "' was not started in interactive mode",
                            ),
                        ),
                    );
                }
                let (k, mut e) = self.take(i);
                let ghost was = e@;
                e.stdin_open = false;
                e.stdin_closed = true;
                proof {
                    assert(e@ =~= input::closed_entry(was));
                    root::lemma_put_back(before, k@, e@);
                    root::lemma_order_kept(names, i as int);
                }
                self.put(i, k, e);
                Ok(())
            },
        }
    }

    /// The code that a root shuts down with: the first of a process that has
    /// failed, in the order of the table, or 0.
    pub fn shutdown_code(&self) -> (r: i32)
        ensures
            r == first_failure(self@.table, self.names()),
    {
        let n = self.process_count();
        let mut i: usize = 0;
        proof {
            assert(self.names().skip(0) =~= self.names());
        }
        while i < n
            invariant
                i <= n,
                n == self.names().len(),
                first_failure(self@.table, self.names()) == first_failure(
                    self@.table,
                    self.names().skip(i as int),
                ),
            decreases n - i,
        {
            let e = self.nth(i);
            let c: i32 = if e.state == ProcessState::Failed {
                match e.exit_status {
                    Some(c) => c,
                    None => 1,
                }
            } else {
                0
            };
            proof {
                assert(self.names().skip(i as int)[0] == self.names()[i as int]);
                assert(self.names().skip(i as int).skip(1) =~= self.names().skip(i + 1));
            }
            if c != 0 {
                return c;
            }
            i += 1;
        }
        0
    }
}

/// What a host gets once it has written to a process: the number of bytes, or what
/// went wrong.
pub fn write_result(bytes: usize, w: &WriteResult) -> (r: Result<usize, PsyError>)
    ensures
        match input::write_error(*w) {
            Some(m) => r matches Err(e) && e@ == ErrorView::Other(m),
            None => r == Ok::<usize, PsyError>(bytes),
        },
{
    match input::write_failure(w) {
        Some(m) => Err(PsyError::Other(m)),
        None => Ok(bytes),
    }
}

/// A root shuts down with 0 just where no process has failed with a code other
/// than 0, and otherwise with the code of a process that has failed.
pub proof fn lemma_shutdown_code(table: Map<Seq<char>, EntryView>, names: Seq<Seq<char>>)
    ensures
        first_failure(table, names) == 0 <==> forall|n: Seq<char>| #[trigger]
            names.contains(n) ==> failure_code(table[n]) == 0,
        first_failure(table, names) != 0 ==> exists|n: Seq<char>| #[trigger]
            names.contains(n) && failure_code(table[n]) == first_failure(table, names),
    decreases names.len(),
{
    if names.len() > 0 {
        let rest = names.skip(1);
        lemma_shutdown_code(table, rest);
        assert(names.contains(names[0]));
        assert forall|n: Seq<char>| #[trigger] names.contains(n) implies n == names[0]
            || rest.contains(n) by {
            let i = choose|i: int| 0 <= i < names.len() && names[i] == n;
            if i > 0 {
                assert(rest[i - 1] == n);
            }
        }
        assert forall|n: Seq<char>| #[trigger] rest.contains(n) implies names.contains(n) by {
            let i = choose|i: int| 0 <= i < rest.len() && rest[i] == n;
            assert(names[i + 1] == n);
        }
        if first_failure(table, names) == 0 {
            assert forall|n: Seq<char>| #[trigger] names.contains(n) implies failure_code(
                table[n],
            ) == 0 by {
                if n != names[0] {
                    assert(rest.contains(n));
                }
            }
        } else if failure_code(table[names[0]]) == 0 {
            let n = choose|n: Seq<char>| #[trigger]
                rest.contains(n) && failure_code(table[n]) == first_failure(table, rest);
            assert(names.contains(n));
        }
    }
}

/// After its stdin has been closed a process takes no input from a host.
pub proof fn lemma_no_write_after_close(r: RootView, name: Seq<char>)
    requires
        close_refusal(r, name) is None,
    ensures
        write_refusal(
            root::with_entry(r, name, input::closed_entry(r.table[name])),
            name,
        ) is Some,
{
}

} // verus!
