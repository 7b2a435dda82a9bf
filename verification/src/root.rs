//! The root: the table of processes, and what the root decides about them.
use crate::json;
use crate::json::{Js, Json};
use crate::names::NameMap;
use crate::platform::System;
use crate::process;
use crate::process::{EntryView, ProcessEntry, ProcessState};
use crate::protocol;
use crate::protocol::Response;
use crate::psyfile;
use crate::shell;
use crate::text;
use crate::time::Timestamp;
use vstd::prelude::*;

pub mod again;
pub mod cascade;
pub mod control;
pub mod handle;
pub mod input;
pub mod life;
pub mod query;
pub mod run;
pub mod serve;
pub mod start;
pub mod subroot;
pub mod wait;

verus! {

/// How long a process has to end before it is killed, in seconds.
pub const STOP_GRACE_SECS: u64 = 10;

/// How long a write to the stdin of a process may take, in seconds.
pub const WRITE_LIMIT_SECS: u64 = 5;

/// The pause between the end of a process and its restart, in milliseconds.
pub const RESTART_PAUSE_MILLIS: u64 = 200;

// ---------------------------------------------------------------------------
// Answers
// ---------------------------------------------------------------------------

/// Whether an answer reports an error with this message.
pub open spec fn is_error(r: Response, id: Seq<char>, message: Seq<char>) -> bool {
    &&& r.id@ == id
    &&& !r.ok
    &&& r.data is None
    &&& text::opt_text(r.error) == Some(message)
    &&& r.error_code == Some(protocol::message_class(message))
}

/// Whether an answer reports success with this data.
pub open spec fn is_success(r: Response, id: Seq<char>, data: Js) -> bool {
    &&& r.id@ == id
    &&& r.ok
    &&& r.data matches Some(d) && json::model(d) == data
    &&& r.error is None
    &&& r.error_code is None
}

/// A name and a status, as they are answered.
pub open spec fn status_json(name: Seq<char>, status: Seq<char>) -> Js {
    json::object_of(seq![("name"@, Js::Text(name)), ("status"@, Js::Text(status))])
}

pub(crate) fn status_value(name: &str, status: &str) -> (r: Json)
    ensures
        json::model(r) == status_json(name@, status@),
{
    let mut e: Vec<(String, Json)> = Vec::new();
    e.push(json::entry("name", json::string(name)));
    e.push(json::entry("status", json::string(status)));
    proof {
        assert(json::entry_models(e@) =~= seq![
            ("name"@, Js::Text(name@)),
            ("status"@, Js::Text(status@)),
        ]);
    }
    json::object(e)
}

/// The answer for a process that is not known.
pub open spec fn not_found(name: Seq<char>) -> Seq<char> {
    "process '"@ + name + "' not found"@
}

/// The answer for a process that is not running.
pub open spec fn not_running(name: Seq<char>) -> Seq<char> {
    "process '"@ + name + "' is not running"@
}

/// The answer for a process that is running already.
pub open spec fn already_running(name: Seq<char>) -> Seq<char> {
    "process '"@ + name + "' is already running"@
}

// ---------------------------------------------------------------------------
// The table
// ---------------------------------------------------------------------------

/// The state of a root.
#[derive(Debug)]
pub struct SharedRoot {
    process_table: NameMap<ProcessEntry>,
    psy_sock: String,
    psy_root_pid: u32,
    system: System,
    shutting_down: bool,
    /// How many instances of each template have been started.
    template_counters: NameMap<u32>,
    /// When the log of each process was asked for last.
    logs_asked: NameMap<Timestamp>,
}

/// What a root knows.
#[verifier::ext_equal]
pub ghost struct RootView {
    pub table: Map<Seq<char>, EntryView>,
    pub psy_sock: Seq<char>,
    pub psy_root_pid: u32,
    pub system: System,
    pub shutting_down: bool,
    pub counters: Map<Seq<char>, u32>,
    pub logs_asked: Map<Seq<char>, Timestamp>,
}

/// What is known of the processes in a table.
pub open spec fn table_view(m: Map<Seq<char>, ProcessEntry>) -> Map<Seq<char>, EntryView> {
    m.map_values(|e: ProcessEntry| e@)
}

impl View for SharedRoot {
    type V = RootView;

    closed spec fn view(&self) -> RootView {
        RootView {
            table: table_view(self.process_table@),
            psy_sock: self.psy_sock@,
            psy_root_pid: self.psy_root_pid,
            system: self.system,
            shutting_down: self.shutting_down,
            counters: self.template_counters@,
            logs_asked: self.logs_asked@,
        }
    }
}

/// A root with another entry for a process.
pub open spec fn with_entry(r: RootView, name: Seq<char>, e: EntryView) -> RootView {
    RootView { table: r.table.insert(name, e), ..r }
}

/// Whether a process is known and running.
pub open spec fn runs(r: RootView, name: Seq<char>) -> bool {
    r.table.dom().contains(name) && r.table[name].state == ProcessState::Running
}

/// What holds of every root: entries stand under their names, and their runs are
/// numbered in order.
pub open spec fn consistent(r: RootView) -> bool {
    forall|k: Seq<char>| #[trigger]
        r.table.dom().contains(k) ==> r.table[k].name == k && process::numbered(r.table[k])
}

impl SharedRoot {
    /// The names in the table, in the order in which they came in.
    pub closed spec fn names(&self) -> Seq<Seq<char>> {
        self.process_table.names()
    }

    /// A root without processes.
    pub fn new(psy_sock: String, psy_root_pid: u32, system: System) -> (r: SharedRoot)
        ensures
            r@ == (RootView {
                table: Map::empty(),
                psy_sock: psy_sock@,
                psy_root_pid,
                system,
                shutting_down: false,
                counters: Map::empty(),
                logs_asked: Map::empty(),
            }),
            r.names() == Seq::<Seq<char>>::empty(),
            consistent(r@),
    {
        let r = SharedRoot {
            process_table: NameMap::new(),
            psy_sock,
            psy_root_pid,
            system,
            shutting_down: false,
            template_counters: NameMap::new(),
            logs_asked: NameMap::new(),
        };
        proof {
            assert(r@.table =~= Map::<Seq<char>, EntryView>::empty());
        }
        r
    }

    /// The entry of a process.
    pub fn entry(&self, name: &str) -> (r: Option<&ProcessEntry>)
        ensures
            match r {
                Some(e) => self@.table.dom().contains(name@) && self@.table[name@] == e@,
                None => !self@.table.dom().contains(name@),
            },
    {
        self.process_table.get(name)
    }

    /// The socket of the root.
    pub fn socket(&self) -> (r: &str)
        ensures
            r@ == self@.psy_sock,
    {
        self.psy_sock.as_str()
    }

    /// The process id of the root.
    pub fn root_pid(&self) -> (r: u32)
        ensures
            r == self@.psy_root_pid,
    {
        self.psy_root_pid
    }

    /// Whether the root is shutting down.
    pub fn is_shutting_down(&self) -> (r: bool)
        ensures
            r == self@.shutting_down,
    {
        self.shutting_down
    }

    /// Whether a process is known and running.
    pub fn is_running(&self, name: &str) -> (r: bool)
        ensures
            r == runs(self@, name@),
    {
        match self.process_table.get(name) {
            Some(e) => e.state == ProcessState::Running,
            None => false,
        }
    }

    /// The names in the table are those of its processes.
    pub proof fn lemma_names(&self)
        ensures
            forall|k: Seq<char>| #[trigger]
                self@.table.dom().contains(k) <==> self.names().contains(k),
    {
        self.process_table.lemma_names();
    }

    /// The number of processes in the table.
    fn process_count(&self) -> (r: usize)
        ensures
            r == self.names().len(),
            self.names().no_duplicates(),
    {
        self.process_table.len()
    }

    /// The name at a position of the table.
    fn nth_name(&self, i: usize) -> (r: &String)
        requires
            i < self.names().len(),
        ensures
            r@ == self.names()[i as int],
            self@.table.dom().contains(r@),
    {
        self.process_table.name_at(i)
    }

    /// The entry at a position of the table.
    fn nth(&self, i: usize) -> (r: &ProcessEntry)
        requires
            i < self.names().len(),
        ensures
            self@.table.dom().contains(self.names()[i as int]),
            r@ == self@.table[self.names()[i as int]],
    {
        self.process_table.value_at(i)
    }

    /// The position of a process in the table.
    fn find(&self, name: &str) -> (r: Option<usize>)
        ensures
            match r {
                Some(i) => i < self.names().len() && self.names()[i as int] == name@
                    && self@.table.dom().contains(name@),
                None => !self@.table.dom().contains(name@),
            },
    {
        proof {
            self.process_table.lemma_names();
        }
        match self.process_table.position(name) {
            Some(i) => {
                proof {
                    assert(self.process_table.names().contains(name@));
                }
                Some(i)
            },
            None => None,
        }
    }

    /// Counts one more instance of a template.
    fn count_instance(&mut self, name: &str) -> (r: u32)
        requires
            run::next_instance(old(self)@, name@) <= u32::MAX,
        ensures
            r == run::next_instance(old(self)@, name@),
            final(self)@ == run::counted(old(self)@, name@, false),
            final(self).names() == old(self).names(),
    {
        let n: u32 = match self.template_counters.get(name) {
            Some(c) => *c + 1,
            None => 1,
        };
        self.template_counters.insert(text::copy(name), n);
        n
    }

    /// Takes an entry out, so that it can be changed.
    fn take(&mut self, i: usize) -> (r: (String, ProcessEntry))
        requires
            i < old(self).names().len(),
        ensures
            r.0@ == old(self).names()[i as int],
            old(self)@.table.dom().contains(r.0@),
            old(self)@.table[r.0@] == r.1@,
            final(self)@ == (RootView { table: old(self)@.table.remove(r.0@), ..old(self)@ }),
            final(self).names() == old(self).names().remove(i as int),
    {
        let ghost before = self@;
        let r = self.process_table.take_at(i);
        proof {
            assert(self@.table =~= before.table.remove(r.0@));
        }
        r
    }

    /// Puts an entry back where it was.
    fn put(&mut self, i: usize, name: String, e: ProcessEntry)
        requires
            i <= old(self).names().len(),
            !old(self)@.table.dom().contains(name@),
        ensures
            final(self)@ == with_entry(old(self)@, name@, e@),
            final(self).names() == old(self).names().insert(i as int, name@),
    {
        let ghost before = self@;
        let ghost ev = e@;
        let ghost k = name@;
        self.process_table.put_at(i, name, e);
        proof {
            assert(self@.table =~= before.table.insert(k, ev));
        }
    }

    /// Adds an entry, in place of the one with its name.
    fn add_entry(&mut self, name: String, e: ProcessEntry)
        ensures
            final(self)@ == with_entry(old(self)@, name@, e@),
            final(self).names() == if old(self)@.table.dom().contains(name@) {
                old(self).names()
            } else {
                old(self).names().push(name@)
            },
    {
        let ghost before = self@;
        let ghost ev = e@;
        let ghost k = name@;
        self.process_table.insert(name, e);
        proof {
            assert(self@.table =~= before.table.insert(k, ev));
        }
    }
}

/// Taking an entry out and putting one back changes that entry alone.
proof fn lemma_put_back(r: RootView, name: Seq<char>, e: EntryView)
    ensures
        with_entry(RootView { table: r.table.remove(name), ..r }, name, e) == with_entry(
            r,
            name,
            e,
        ),
{
    assert(r.table.remove(name).insert(name, e) =~= r.table.insert(name, e));
}

proof fn lemma_order_kept(names: Seq<Seq<char>>, i: int)
    requires
        0 <= i < names.len(),
    ensures
        names.remove(i).insert(i, names[i]) == names,
{
    assert(names.remove(i).insert(i, names[i]) =~= names);
}

// ---------------------------------------------------------------------------
// Environments
// ---------------------------------------------------------------------------

/// Sets the variables of one environment in another.
pub fn overlay(base: &mut NameMap<String>, over: &NameMap<String>)
    ensures
        psyfile::env_view(*final(base)) == psyfile::env_view(*old(base)).union_prefer_right(
            psyfile::env_view(*over),
        ),
{
    let ghost start = psyfile::env_view(*base);
    let ghost extra = psyfile::env_view(*over);
    let ghost names = over.names();
    let n = over.len();
    let mut i: usize = 0;
    proof {
        assert(start =~= start.union_prefer_right(extra.restrict(names.take(0).to_set())));
    }
    while i < n
        invariant
            i <= n,
            n == names.len(),
            names == over.names(),
            extra == psyfile::env_view(*over),
            psyfile::env_view(*base) == start.union_prefer_right(
                extra.restrict(names.take(i as int).to_set()),
            ),
        decreases n - i,
    {
        let k = over.name_at(i);
        let v = over.value_at(i);
        let ghost before = psyfile::env_view(*base);
        let ghost inner = base@;
        let key = text::copy(k.as_str());
        let val = text::copy(v.as_str());
        base.insert(key, val);
        proof {
            assert(psyfile::env_view(*base) =~= before.insert(k@, v@));
            assert(extra.dom().contains(k@) && extra[k@] == v@);
            lemma_take_one_more(names, i as int);
            assert(start.union_prefer_right(extra.restrict(names.take(i + 1).to_set()))
                =~= start.union_prefer_right(
                extra.restrict(names.take(i as int).to_set()),
            ).insert(k@, v@));
        }
        i += 1;
    }
    proof {
        over.lemma_names();
        assert(names.take(n as int) =~= names);
        assert(extra.restrict(names.to_set()) =~= extra);
    }
}

/// One more name makes a larger set.
proof fn lemma_take_one_more(names: Seq<Seq<char>>, i: int)
    requires
        0 <= i < names.len(),
    ensures
        names.take(i + 1).to_set() == names.take(i).to_set().insert(names[i]),
{
    let a = names.take(i).to_set();
    let b = names.take(i + 1).to_set();
    assert forall|x: Seq<char>| b.contains(x) <==> a.insert(names[i]).contains(x) by {
        if a.contains(x) {
            let q = names.take(i).index_of(x);
            assert(names.take(i)[q] == x);
            assert(names.take(i + 1)[q] == x);
        }
        if b.contains(x) {
            let q = names.take(i + 1).index_of(x);
            assert(names.take(i + 1)[q] == x);
            if q < i {
                assert(names.take(i)[q] == x);
            }
        }
        assert(names.take(i + 1)[i] == names[i]);
    }
    assert(b =~= a.insert(names[i]));
}

/// The variables of an environment with the values of others put in.
pub open spec fn expanded(
    m: Map<Seq<char>, Seq<char>>,
    vars: Map<Seq<char>, Seq<char>>,
) -> Map<Seq<char>, Seq<char>> {
    m.map_values(|v: Seq<char>| shell::interpolated(v, vars))
}

/// Puts the values of variables into those of an environment.
pub fn expand_env(m: &NameMap<String>, vars: &NameMap<String>) -> (r: NameMap<String>)
    ensures
        psyfile::env_view(r) == expanded(psyfile::env_view(*m), psyfile::env_view(*vars)),
{
    let ghost all = psyfile::env_view(*m);
    let ghost vs = psyfile::env_view(*vars);
    let ghost names = m.names();
    let n = m.len();
    let mut out: NameMap<String> = NameMap::new();
    let mut i: usize = 0;
    proof {
        assert(psyfile::env_view(out) =~= expanded(
            all.restrict(names.take(0).to_set()),
            vs,
        ));
    }
    while i < n
        invariant
            i <= n,
            n == names.len(),
            names == m.names(),
            all == psyfile::env_view(*m),
            vs == psyfile::env_view(*vars),
            psyfile::env_view(out) == expanded(all.restrict(names.take(i as int).to_set()), vs),
        decreases n - i,
    {
        let k = m.name_at(i);
        let v = m.value_at(i);
        let ghost before = psyfile::env_view(out);
        let key = text::copy(k.as_str());
        let val = shell::interpolate(v.as_str(), vars);
        out.insert(key, val);
        proof {
            assert(psyfile::env_view(out) =~= before.insert(k@, val@));
            assert(all.dom().contains(k@) && all[k@] == v@);
            lemma_take_one_more(names, i as int);
            assert(expanded(all.restrict(names.take(i + 1).to_set()), vs) =~= expanded(
                all.restrict(names.take(i as int).to_set()),
                vs,
            ).insert(k@, val@));
        }
        i += 1;
    }
    proof {
        m.lemma_names();
        assert(names.take(n as int) =~= names);
        assert(all.restrict(names.to_set()) =~= all);
    }
    out
}

/// A copy of an environment.
pub fn copy_env(m: &NameMap<String>) -> (r: NameMap<String>)
    ensures
        psyfile::env_view(r) == psyfile::env_view(*m),
{
    let mut out: NameMap<String> = NameMap::new();
    proof {
        assert(psyfile::env_view(out) =~= Map::<Seq<char>, Seq<char>>::empty());
    }
    overlay(&mut out, m);
    proof {
        assert(psyfile::env_view(out) =~= psyfile::env_view(*m));
    }
    out
}

/// The variables that texts of a unit may refer to: those of the root's own
/// environment, those that point to the root, and those of the process.
pub open spec fn visible_vars(
    host: Map<Seq<char>, Seq<char>>,
    r: RootView,
    own: Map<Seq<char>, Seq<char>>,
) -> Map<Seq<char>, Seq<char>> {
    host.insert("PSY_SOCK"@, r.psy_sock).insert(
        "PSY_ROOT_PID"@,
        text::decimal(r.psy_root_pid as nat),
    ).union_prefer_right(own)
}

impl SharedRoot {
    /// Collects the variables that texts of a unit may refer to.
    fn visible(&self, host: &NameMap<String>, own: &NameMap<String>) -> (r: NameMap<String>)
        ensures
            psyfile::env_view(r) == visible_vars(
                psyfile::env_view(*host),
                self@,
                psyfile::env_view(*own),
            ),
    {
        let mut vars = copy_env(host);
        let ghost a = psyfile::env_view(vars);
        let sock = text::copy(self.psy_sock.as_str());
        let pid = text::decimal_of(self.psy_root_pid as u128);
        vars.insert(text::copy("PSY_SOCK"), sock);
        let ghost b = psyfile::env_view(vars);
        proof {
            assert(b =~= a.insert("PSY_SOCK"@, sock@));
        }
        vars.insert(text::copy("PSY_ROOT_PID"), pid);
        proof {
            assert(psyfile::env_view(vars) =~= b.insert("PSY_ROOT_PID"@, pid@));
        }
        overlay(&mut vars, own);
        vars
    }
}

} // verus!
