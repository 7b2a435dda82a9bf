//! Roots below a root: how they make themselves known.
use crate::process;
use crate::process::{EntryView, ProcessEntry, ProcessState};
use crate::protocol::{RegisterSubrootArgs, Response, RestartPolicy};
use crate::names::NameMap;
use crate::psyfile;
use crate::root;
use crate::root::{RootView, SharedRoot};
use crate::text;
use crate::time::Timestamp;
use vstd::prelude::*;

verus! {

/// What is held against a root that registers below another. `ancestors` are the
/// processes above it.
pub open spec fn refusal(r: RootView, args: Option<RegisterSubrootArgs>, ancestors: Seq<u32>) -> Option<
    Seq<char>,
> {
    match args {
        None => Some("invalid or missing register_subroot args"@),
        Some(a) => if !process::valid_name(a.name@) {
            Some("invalid sub-root unit name '"@ + a.name@ + "'"@)
        } else if a.socket_path@.len() == 0 {
            Some("sub-root socket_path must not be empty"@)
        } else if !ancestors.contains(r.psy_root_pid) {
            Some(
                "sub-root pid "@ + text::decimal(a.pid as nat)
                    + " is not a descendant of parent psy pid "@ + text::decimal(
                    r.psy_root_pid as nat,
                ),
            )
        } else if r.table.dom().contains(a.name@) {
            if !r.table[a.name@].sub_root {
                Some("unit '"@ + a.name@ + "' was not started as a sub-root"@)
            } else if r.table[a.name@].pid != Some(a.pid) {
                Some(
                    "sub-root pid "@ + text::decimal(a.pid as nat)
                        + " does not match spawned child of '"@ + a.name@ + "'"@,
                )
            } else {
                None
            }
        } else {
            None
        },
    }
}

/// The entry of a root that was started by someone else.
pub open spec fn foreign_entry(name: Seq<char>, pid: u32, now: Timestamp) -> EntryView {
    EntryView {
        state: ProcessState::Running,
        pid: Some(pid),
        started_at: Some(now),
        sub_root: true,
        ..process::new_entry(name, Seq::empty(), Map::empty(), RestartPolicy::No, false)
    }
}

/// The entry of a root that has registered.
pub open spec fn registered(r: RootView, a: RegisterSubrootArgs, now: Timestamp) -> EntryView {
    EntryView {
        subroot_socket: Some(a.socket_path@),
        ..if r.table.dom().contains(a.name@) {
            r.table[a.name@]
        } else {
            foreign_entry(a.name@, a.pid, now)
        }
    }
}

fn build_foreign(name: &str, pid: u32, now: Timestamp) -> (e: ProcessEntry)
    ensures
        e@ == foreign_entry(name@, pid, now),
{
    let command: Vec<String> = Vec::new();
    let env: NameMap<String> = NameMap::new();
    proof {
        assert(text::texts(command@) =~= Seq::<Seq<char>>::empty());
        assert(psyfile::env_view(env) =~= Map::<Seq<char>, Seq<char>>::empty());
    }
    let mut e = ProcessEntry::new(text::copy(name), command, env, RestartPolicy::No, false);
    e.state = ProcessState::Running;
    e.pid = Some(pid);
    e.started_at = Some(now);
    e.sub_root = true;
    proof {
        assert(e@ =~= foreign_entry(name@, pid, now));
    }
    e
}

fn is_above(pid: u32, ancestors: &Vec<u32>) -> (r: bool)
    ensures
        r == ancestors@.contains(pid),
{
    let mut i: usize = 0;
    while i < ancestors.len()
        invariant
            i <= ancestors.len(),
            forall|j: int| 0 <= j < i ==> ancestors@[j] != pid,
        decreases ancestors.len() - i,
    {
        if ancestors[i] == pid {
            return true;
        }
        i += 1;
    }
    false
}

impl SharedRoot {
    fn refuse_subroot(&self, args: &Option<RegisterSubrootArgs>, ancestors: &Vec<u32>) -> (r: Option<
        String,
    >)
        ensures
            text::opt_text(r) == refusal(self@, *args, ancestors@),
    {
        let a = match args {
            Some(a) => a,
            None => {
                return Some(text::copy("invalid or missing register_subroot args"));
            },
        };
        let name = a.name.as_str();
        if !process::validate_name(name) {
            return Some(text::concat3("invalid sub-root unit name '", name, "'"));
        }
        proof {
            reveal_strlit("");
            assert(a.socket_path@.len() == 0 ==> a.socket_path@ =~= ""@);
        }
        if text::same(a.socket_path.as_str(), "") {
            return Some(text::copy("sub-root socket_path must not be empty"));
        }
        let pid = text::decimal_of(a.pid as u128);
        if !is_above(self.root_pid(), ancestors) {
            let mut m = text::concat3(
                "sub-root pid ",
                pid.as_str(),
                " is not a descendant of parent psy pid ",
            );
            let root_pid = text::decimal_of(self.root_pid() as u128);
            text::push_text(&mut m, root_pid.as_str());
            return Some(m);
        }
        match self.entry(name) {
            None => None,
            Some(e) => {
                if !e.sub_root {
                    return Some(text::concat3("unit '", name, "' was not started as a sub-root"));
                }
                let same = match e.pid {
                    Some(p) => p == a.pid,
                    None => false,
                };
                if same {
                    None
                } else {
                    let mut m = text::concat3(
                        "sub-root pid ",
                        pid.as_str(),
                        " does not match spawned child of '",
                    );
                    text::push_text(&mut m, name);
                    text::push_text(&mut m, "'");
                    Some(m)
                }
            },
        }
    }

    /// Notes the socket of a root below this one. Only a descendant may register,
    /// and under a name that is taken only the process that was started there.
    pub fn register_subroot(
        &mut self,
        id: &str,
        args: &Option<RegisterSubrootArgs>,
        ancestors: &Vec<u32>,
        now: Timestamp,
    ) -> (r: Response)
        ensures
            match refusal(old(self)@, *args, ancestors@) {
                Some(m) => root::is_error(r, id@, m) && final(self)@ == old(self)@,
                None => root::is_success(
                    r,
                    id@,
                    root::status_json(args->0.name@, "registered"@),
                ) && final(self)@ == root::with_entry(
                    old(self)@,
                    args->0.name@,
                    registered(old(self)@, args->0, now),
                ),
            },
    {
        let ghost before = self@;
        match self.refuse_subroot(args, ancestors) {
            Some(m) => {
                return Response::err(id, m.as_str());
            },
            None => {},
        }
        let a = match args {
            Some(a) => a,
            None => {
                return Response::err(id, "invalid or missing register_subroot args");
            },
        };
        let name = a.name.as_str();
        let mut e = match self.find(name) {
            Some(i) => {
                let (k, e) = self.take(i);
                e
            },
            None => build_foreign(name, a.pid, now),
        };
        let ghost was = e@;
        e.subroot_socket = Some(text::copy(a.socket_path.as_str()));
        proof {
            assert(e@ =~= registered(before, *a, now));
        }
        let ghost ev = e@;
        self.add_entry(text::copy(name), e);
        proof {
            assert(self@.table =~= before.table.insert(name@, ev));
        }
        Response::ok(id, Some(root::status_value(name, "registered")))
    }
}

/// A root that is no descendant is never registered.
pub proof fn lemma_strangers_refused(r: RootView, a: RegisterSubrootArgs, ancestors: Seq<u32>)
    requires
        !ancestors.contains(r.psy_root_pid),
    ensures
        refusal(r, Some(a), ancestors) is Some,
{
}

} // verus!
