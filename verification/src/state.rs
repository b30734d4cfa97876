//! Persistent memory: per host and remote port the local port, the pinned flag, the on/off state
//! and the user's note; per host the pause of forwarding.
use vstd::prelude::*;
use crate::maps;
use crate::maps::SortedMap;
use crate::types;
use crate::types::Tier;
use crate::util;

verus! {

/// What is remembered of one remote port of one host.
#[derive(Debug, PartialEq)]
pub struct Assignment {
    /// Last local port used (`None` if the app was never forwarded, for instance where the entry
    /// only carries a comment or the mute flag).
    pub local_port: Option<u16>,
    pub process: Option<String>,
    /// True when the user chose this port by hand.
    pub pinned: bool,
    /// The user turned forwarding off for this app.
    pub muted: bool,
    /// Free-text note attached by the user.
    pub comment: Option<String>,
    /// The user's override of the visibility heuristic: "app" (always show and auto-forward) or
    /// "bg" (hide, never auto-forward).
    pub tier: Option<String>,
    pub updated_at: u64,
}

/// The model of an [`Assignment`].
#[verifier::ext_equal]
pub struct AssignmentModel {
    pub local_port: Option<u16>,
    pub process: Option<Seq<char>>,
    pub pinned: bool,
    pub muted: bool,
    pub comment: Option<Seq<char>>,
    pub tier: Option<Seq<char>>,
    pub updated_at: u64,
}

impl View for Assignment {
    type V = AssignmentModel;

    open spec fn view(&self) -> AssignmentModel {
        AssignmentModel {
            local_port: self.local_port,
            process: types::opt_text(self.process),
            pinned: self.pinned,
            muted: self.muted,
            comment: types::opt_text(self.comment),
            tier: types::opt_text(self.tier),
            updated_at: self.updated_at,
        }
    }
}

impl Clone for Assignment {
    fn clone(&self) -> (r: Assignment)
        ensures
            r@ == self@,
    {
        Assignment {
            local_port: self.local_port,
            process: types::copy_opt(&self.process),
            pinned: self.pinned,
            muted: self.muted,
            comment: types::copy_opt(&self.comment),
            tier: types::copy_opt(&self.tier),
            updated_at: self.updated_at,
        }
    }
}

/// The entry of a port of which nothing is remembered.
pub open spec fn blank_assignment() -> AssignmentModel {
    AssignmentModel {
        local_port: None,
        process: None,
        pinned: false,
        muted: false,
        comment: None,
        tier: None,
        updated_at: 0,
    }
}

impl Default for Assignment {
    fn default() -> (r: Assignment)
        ensures
            r@ == blank_assignment(),
    {
        Assignment {
            local_port: None,
            process: None,
            pinned: false,
            muted: false,
            comment: None,
            tier: None,
            updated_at: 0,
        }
    }
}

/// The tier that a remembered override stands for.
pub open spec fn override_tier(tier: Option<Seq<char>>) -> Option<Tier> {
    if tier == Some("app"@) {
        Some(Tier::App)
    } else if tier == Some("bg"@) {
        Some(Tier::Bg)
    } else {
        None
    }
}

/// Everything that is remembered.
#[derive(Debug)]
pub struct State {
    /// "user@host:port" -> remote port -> assignment.
    pub assignments: SortedMap<String, SortedMap<u16, Assignment>>,
    /// Hosts with forwarding turned off entirely.
    pub paused_hosts: SortedMap<String, ()>,
}

/// The model of a [`State`].
#[verifier::ext_equal]
pub struct StateModel {
    pub assignments: Map<Seq<char>, Map<u16, AssignmentModel>>,
    pub paused: Set<Seq<char>>,
}

impl StateModel {
    /// What is remembered of the port `rport` of `host`.
    pub open spec fn get(self, host: Seq<char>, rport: u16) -> Option<AssignmentModel> {
        if self.assignments.contains_key(host) && self.assignments[host].contains_key(rport) {
            Some(self.assignments[host][rport])
        } else {
            None
        }
    }

    /// What is remembered of the port, or the blank entry.
    pub open spec fn entry(self, host: Seq<char>, rport: u16) -> AssignmentModel {
        match self.get(host, rport) {
            Some(a) => a,
            None => blank_assignment(),
        }
    }

    /// The memory with the entry of one port replaced.
    pub open spec fn with(self, host: Seq<char>, rport: u16, a: AssignmentModel) -> StateModel {
        let ports = if self.assignments.contains_key(host) {
            self.assignments[host]
        } else {
            Map::empty()
        };
        StateModel {
            assignments: self.assignments.insert(host, ports.insert(rport, a)),
            paused: self.paused,
        }
    }

    /// The memory with the pause of one host set or lifted.
    pub open spec fn with_paused(self, host: Seq<char>, paused: bool) -> StateModel {
        StateModel {
            assignments: self.assignments,
            paused: if paused {
                self.paused.insert(host)
            } else {
                self.paused.remove(host)
            },
        }
    }
}

impl View for State {
    type V = StateModel;

    open spec fn view(&self) -> StateModel {
        StateModel { assignments: self.assignments@, paused: self.paused_hosts@.dom() }
    }
}

impl Default for State {
    fn default() -> (r: State)
        ensures
            r@.assignments == Map::<Seq<char>, Map<u16, AssignmentModel>>::empty(),
            r@.paused == Set::<Seq<char>>::empty(),
    {
        let r = State { assignments: SortedMap::new(), paused_hosts: SortedMap::new() };
        assert(r@.paused =~= Set::<Seq<char>>::empty());
        r
    }
}

/// The file of the memory: what `SSH_AUTOPORT_STATE` says, or else a place under the configuration
/// directory, which is `.config` in the home directory unless `XDG_CONFIG_HOME` says otherwise.
pub open spec fn state_path(
    given: Option<Seq<char>>,
    config: Option<Seq<char>>,
    home: Option<Seq<char>>,
) -> Seq<char> {
    match given {
        Some(p) => p,
        None => {
            let base = match config {
                Some(c) => c,
                None => util::joined(
                    match home {
                        Some(h) => h,
                        None => "."@,
                    },
                    ".config"@,
                ),
            };
            util::joined(util::joined(base, "ssh-autoport"@), "state.json"@)
        },
    }
}

impl State {
    /// The file of the memory, from the values of `SSH_AUTOPORT_STATE`, `XDG_CONFIG_HOME` and
    /// `HOME`, as far as they are set.
    pub fn path(given: Option<String>, config: Option<String>, home: Option<String>) -> (r: String)
        ensures
            r@ == state_path(
                types::opt_text(given),
                types::opt_text(config),
                types::opt_text(home),
            ),
    {
        match given {
            Some(p) => p,
            None => {
                let base = match config {
                    Some(c) => c,
                    None => {
                        let home = match home {
                            Some(h) => h,
                            None => ".".to_owned(),
                        };
                        util::join_path(home.as_str(), ".config")
                    },
                };
                let dir = util::join_path(base.as_str(), "ssh-autoport");
                util::join_path(dir.as_str(), "state.json")
            },
        }
    }

    /// What is remembered of the port `rport` of `host`.
    pub fn get(&self, host: &str, rport: u16) -> (r: Option<&Assignment>)
        ensures
            r is Some <==> self@.get(host@, rport) is Some,
            r matches Some(a) ==> self@.get(host@, rport) == Some(a@),
    {
        match self.assignments.get(&host.to_owned()) {
            Some(ports) => ports.get(&rport),
            None => None,
        }
    }

    /// The entry of a port, made blank where there was none; whoever changes it saves the memory.
    pub fn entry(&mut self, host: &str, rport: u16) -> (r: &mut Assignment)
        ensures
            (*r)@ == old(self)@.entry(host@, rport),
            final(self)@ == old(self)@.with(host@, rport, (*final(r))@),
    {
        let ports = self.assignments.or_insert(host.to_owned(), SortedMap::new());
        ports.or_insert(rport, Assignment::default())
    }

    /// Whether forwarding is paused for `host`.
    pub fn paused(&self, host: &str) -> (r: bool)
        ensures
            r == self@.paused.contains(host@),
    {
        self.paused_hosts.contains_key(&host.to_owned())
    }

    /// Pauses or resumes forwarding for `host`; whoever calls it saves the memory.
    pub fn set_paused(&mut self, host: &str, paused: bool)
        ensures
            final(self)@ == old(self)@.with_paused(host@, paused),
    {
        if paused {
            self.paused_hosts.insert(host.to_owned(), ());
        } else {
            let _was = self.paused_hosts.remove(&host.to_owned());
        }
        assert(self@.paused =~= old(self)@.with_paused(host@, paused).paused);
    }
}

/// What is remembered of the ports of one host, as it is written to the file.
#[derive(Debug, PartialEq)]
pub struct SavedHost {
    pub host: String,
    pub ports: Vec<(u16, Assignment)>,
}

/// Everything that is remembered, as it is written to the file.
#[derive(Debug, PartialEq)]
pub struct Saved {
    pub assignments: Vec<SavedHost>,
    pub paused_hosts: Vec<String>,
}

/// The entries of the listed ports; of two for one port the last counts.
pub open spec fn saved_ports(ports: Seq<(u16, Assignment)>) -> Map<u16, AssignmentModel>
    decreases ports.len(),
{
    if ports.len() == 0 {
        Map::empty()
    } else {
        saved_ports(ports.drop_last()).insert(ports.last().0, ports.last().1@)
    }
}

/// The entries of the listed hosts; of two for one host the last counts.
pub open spec fn saved_hosts(hosts: Seq<SavedHost>) -> Map<Seq<char>, Map<u16, AssignmentModel>>
    decreases hosts.len(),
{
    if hosts.len() == 0 {
        Map::empty()
    } else {
        saved_hosts(hosts.drop_last()).insert(
            hosts.last().host@,
            saved_ports(hosts.last().ports@),
        )
    }
}

/// The listed ports.
pub open spec fn port_numbers(ports: Seq<(u16, Assignment)>) -> Seq<u16> {
    Seq::new(ports.len(), |i: int| ports[i].0)
}

/// The listed hosts.
pub open spec fn host_names(hosts: Seq<SavedHost>) -> Seq<Seq<char>> {
    Seq::new(hosts.len(), |i: int| hosts[i].host@)
}

impl Saved {
    /// Hosts and ports are listed in order, each once.
    pub open spec fn in_order(self) -> bool {
        &&& maps::is_ordered::<String>(host_names(self.assignments@))
        &&& maps::is_ordered::<String>(maps::views(self.paused_hosts@))
        &&& forall|i: int|
            0 <= i < self.assignments@.len() ==> maps::is_ordered::<u16>(
                port_numbers((#[trigger] self.assignments@[i]).ports@),
            )
    }

    /// The memory that stands in the file.
    pub open spec fn memory(self) -> StateModel {
        StateModel {
            assignments: saved_hosts(self.assignments@),
            paused: maps::views(self.paused_hosts@).to_set(),
        }
    }
}

/// What is remembered of the ports of one host, in order.
fn save_ports(ports: &SortedMap<u16, Assignment>) -> (r: Vec<(u16, Assignment)>)
    ensures
        saved_ports(r@) == ports@,
        maps::is_ordered::<u16>(port_numbers(r@)),
{
    let mut r: Vec<(u16, Assignment)> = Vec::new();
    let keys = ports.keys();
    let ghost ks = keys@;
    assert(maps::views(ks) =~= ks);
    for i in 0..keys.len()
        invariant
            ks == keys@,
            ks.to_set() == ports@.dom(),
            saved_ports(r@) == ports@.restrict(ks.take(i as int).to_set()),
            port_numbers(r@) == ks.take(i as int),
    {
        let p: u16 = keys[i];
        let ghost before = r@;
        assert(ks.to_set().contains(ks[i as int]));
        match ports.get(&p) {
            Some(a) => {
                r.push((p, a.clone()));
                assert(r@.drop_last() =~= before);
            },
            None => {},
        }
        proof {
            assert(ks.take(i + 1) =~= ks.take(i as int).push(p));
            ks.take(i as int).lemma_push_to_set_commute(p);
            assert(saved_ports(r@) =~= ports@.restrict(ks.take(i + 1).to_set()));
            assert(port_numbers(r@) =~= ks.take(i + 1));
        }
    }
    assert(ks.take(ks.len() as int) =~= ks);
    assert(ports@.restrict(ports@.dom()) =~= ports@);
    r
}

/// The entries of the listed ports.
fn load_ports(ports: &Vec<(u16, Assignment)>) -> (r: SortedMap<u16, Assignment>)
    ensures
        r@ == saved_ports(ports@),
{
    let mut r: SortedMap<u16, Assignment> = SortedMap::new();
    assert(ports@.take(0) =~= Seq::<(u16, Assignment)>::empty());
    for i in 0..ports.len()
        invariant
            r@ == saved_ports(ports@.take(i as int)),
    {
        assert(ports@.take(i + 1).drop_last() =~= ports@.take(i as int));
        r.insert(ports[i].0, ports[i].1.clone());
    }
    assert(ports@.take(ports@.len() as int) =~= ports@);
    r
}

impl State {
    /// The memory as it is written to the file, with hosts and ports in order: what is read from it
    /// is the same memory.
    pub fn to_saved(&self) -> (r: Saved)
        ensures
            r.memory() == self@,
            r.in_order(),
    {
        let mut hosts: Vec<SavedHost> = Vec::new();
        let keys = self.assignments.keys();
        let ghost ks = maps::views(keys@);
        let ghost all = self.assignments@;
        for i in 0..keys.len()
            invariant
                ks == maps::views(keys@),
                all == self.assignments@,
                ks.to_set() == all.dom(),
                saved_hosts(hosts@) == all.restrict(ks.take(i as int).to_set()),
                host_names(hosts@) == ks.take(i as int),
                forall|j: int|
                    0 <= j < hosts@.len() ==> maps::is_ordered::<u16>(
                        port_numbers((#[trigger] hosts@[j]).ports@),
                    ),
        {
            let ghost k = ks[i as int];
            let ghost before = hosts@;
            assert(ks.to_set().contains(k));
            match self.assignments.get(&keys[i]) {
                Some(ports) => {
                    hosts.push(SavedHost { host: keys[i].clone(), ports: save_ports(ports) });
                    assert(hosts@.drop_last() =~= before);
                },
                None => {},
            }
            proof {
                assert(ks.take(i + 1) =~= ks.take(i as int).push(k));
                ks.take(i as int).lemma_push_to_set_commute(k);
                assert(saved_hosts(hosts@) =~= all.restrict(ks.take(i + 1).to_set()));
                assert(host_names(hosts@) =~= ks.take(i + 1));
            }
        }
        assert(ks.take(ks.len() as int) =~= ks);
        assert(all.restrict(all.dom()) =~= all);
        let r = Saved { assignments: hosts, paused_hosts: self.paused_hosts.keys() };
        assert(r.memory().paused =~= self@.paused);
        r
    }

    /// The memory that stands in the file.
    pub fn from_saved(saved: &Saved) -> (r: State)
        ensures
            r@ == saved.memory(),
    {
        let mut r = State::default();
        let ghost hosts = saved.assignments@;
        let ghost names = maps::views(saved.paused_hosts@);
        assert(hosts.take(0) =~= Seq::<SavedHost>::empty());
        for i in 0..saved.assignments.len()
            invariant
                hosts == saved.assignments@,
                r.assignments@ == saved_hosts(hosts.take(i as int)),
                r@.paused == Set::<Seq<char>>::empty(),
        {
            assert(hosts.take(i + 1).drop_last() =~= hosts.take(i as int));
            let h = &saved.assignments[i];
            r.assignments.insert(h.host.clone(), load_ports(&h.ports));
        }
        assert(hosts.take(hosts.len() as int) =~= hosts);
        assert(names.take(0).to_set() =~= Set::<Seq<char>>::empty());
        for i in 0..saved.paused_hosts.len()
            invariant
                names == maps::views(saved.paused_hosts@),
                r@.assignments == saved_hosts(hosts),
                r@.paused == names.take(i as int).to_set(),
        {
            r.set_paused(saved.paused_hosts[i].as_str(), true);
            proof {
                let k = names[i as int];
                assert(names.take(i + 1) =~= names.take(i as int).push(k));
                names.take(i as int).lemma_push_to_set_commute(k);
            }
        }
        assert(names.take(names.len() as int) =~= names);
        r
    }
}

} // verus!
