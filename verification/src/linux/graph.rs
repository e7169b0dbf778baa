//! What a process capture knows of the PipeWire graph, and which links it makes.
//!
//! A process id belongs to a client, not to a node, so the owner of a playing node is found
//! in two steps: from the node to its client, and from the client to its process id. Objects
//! arrive in any order; after each one the capture looks again for nodes that it should be
//! linked to and whose ports are known. The links themselves are made and held outside; the
//! graph only knows which nodes have them.

use crate::linux::pair::pair_ports;
use crate::linux::props::{ObjectKind, Props};
use crate::text::{owned, push_decimal, same_text};
use crate::types::ProcessMode;
use std::collections::HashMap;
use std::collections::HashSet;
use vstd::prelude::*;

verus! {

broadcast use vstd::std_specs::hash::group_hash_axioms;

/// The id that stands for no object.
pub const ID_ANY: u32 = 0xffff_ffff;

/// A node that plays.
#[derive(Clone, Copy, Debug, PartialEq, Eq, Structural)]
pub struct NodeEntry {
    /// The client that owns it.
    pub owning_client_id: Option<u32>,
    /// The process id, where the node itself carries one.
    pub app_pid: Option<u32>,
}

/// Direction of a port.
#[derive(Clone, Copy, Debug, PartialEq, Eq, Structural)]
pub enum PortDirection {
    /// Sound leaves the node here.
    Out,
    /// Sound enters the node here.
    In,
}

/// A port of a node.
#[derive(Clone, Debug, PartialEq, Eq)]
pub struct PortEntry {
    /// The node.
    pub node_id: u32,
    /// Its direction.
    pub direction: PortDirection,
    /// Its channel name; may be empty.
    pub channel: String,
}

/// A [`PortEntry`] with its text as a sequence.
pub ghost struct PortView {
    pub node_id: u32,
    pub direction: PortDirection,
    pub channel: Seq<char>,
}

impl View for PortEntry {
    type V = PortView;

    open spec fn view(&self) -> PortView {
        PortView { node_id: self.node_id, direction: self.direction, channel: self.channel@ }
    }
}

/// Which nodes a capture takes.
#[derive(Clone, Copy, Debug, PartialEq, Eq, Structural)]
pub enum PidSelect {
    /// One node of this process.
    Include(u32),
    /// Every node of another process.
    Exclude(u32),
}

impl PidSelect {
    /// The process id that nodes are compared with.
    pub open spec fn spec_pid(self) -> u32 {
        match self {
            PidSelect::Include(p) => p,
            PidSelect::Exclude(p) => p,
        }
    }

    /// The process id that nodes are compared with.
    pub fn pid(self) -> (pid: u32)
        ensures
            pid == self.spec_pid(),
    {
        match self {
            PidSelect::Include(p) => p,
            PidSelect::Exclude(p) => p,
        }
    }

    /// The selection of a process source.
    pub fn of_mode(pid: u32, mode: ProcessMode) -> (select: PidSelect)
        ensures
            select == (match mode {
                ProcessMode::Include => PidSelect::Include(pid),
                ProcessMode::Exclude => PidSelect::Exclude(pid),
            }),
    {
        match mode {
            ProcessMode::Include => PidSelect::Include(pid),
            ProcessMode::Exclude => PidSelect::Exclude(pid),
        }
    }
}

/// The process that a node belongs to: the one that it names itself, else the one of its
/// client, as far as that is known.
pub open spec fn node_pid(entry: NodeEntry, client_pid: Map<u32, u32>) -> Option<u32> {
    match entry.app_pid {
        Some(pid) => Some(pid),
        None => match entry.owning_client_id {
            Some(client) => if client_pid.contains_key(client) {
                Some(client_pid[client])
            } else {
                None
            },
            None => None,
        },
    }
}

/// The process that a node belongs to: the one that it names itself, else the one of its
/// client, as far as that is known.
pub fn resolve_node_pid(entry: &NodeEntry, client_pid: &HashMap<u32, u32>) -> (pid: Option<u32>)
    ensures
        pid == node_pid(*entry, client_pid@),
{
    if let Some(pid) = entry.app_pid {
        return Some(pid);
    }
    match entry.owning_client_id {
        Some(client) => match client_pid.get(&client) {
            Some(pid) => Some(*pid),
            None => None,
        },
        None => None,
    }
}

/// The name under which the capture's own node is registered.
pub fn capture_node_name(target_pid: u32) -> (name: String)
    ensures
        name@ == "flexaudio-capture-"@ + crate::text::decimal(target_pid as nat),
{
    let mut name: String = owned("flexaudio-capture-");
    push_decimal(&mut name, target_pid as u64);
    name
}

/// The graph as a mathematical value.
pub ghost struct GraphView {
    pub select: PidSelect,
    /// The capture's own node, once it is known.
    pub self_node: Option<u32>,
    /// Process ids of clients.
    pub clients: Map<u32, u32>,
    /// The client of the process that nodes are compared with.
    pub target_client: Option<u32>,
    /// Nodes that play.
    pub nodes: Map<u32, NodeEntry>,
    /// Ports.
    pub ports: Map<u32, PortView>,
    /// Nodes that are linked to the capture.
    pub linked: Set<u32>,
}

/// Links to make for one node.
#[derive(Debug, Clone, PartialEq, Eq)]
pub struct LinkPlan {
    /// The node that plays.
    pub node: u32,
    /// The capture's own node.
    pub self_node: u32,
    /// Output port and input port of each link.
    pub pairs: Vec<(u32, u32)>,
}

/// What becomes of links when an object goes away.
#[derive(Debug, Clone, PartialEq, Eq)]
pub struct Removal {
    /// Nodes whose links are given up.
    pub dropped: Vec<u32>,
    /// Whether to look for other links at once.
    pub relink: bool,
}

/// Whether `list` holds exactly the ports of `node` in direction `direction`, each once.
pub open spec fn lists_ports(
    list: Seq<(u32, Seq<char>)>,
    ports: Map<u32, PortView>,
    node: u32,
    direction: PortDirection,
) -> bool {
    &&& crate::linux::pair::distinct_ids(list)
    &&& forall|i: int|
        0 <= i < list.len() ==> {
            &&& ports.contains_key((#[trigger] list[i]).0)
            &&& ports[list[i].0] == (PortView { node_id: node, direction, channel: list[i].1 })
        }
    &&& forall|id: u32|
        #![trigger ports.contains_key(id)]
        ports.contains_key(id) && ports[id].node_id == node && ports[id].direction == direction
            ==> crate::linux::pair::has_id(list, id)
}

impl GraphView {
    /// What holds of every graph: only nodes that play are linked.
    pub open spec fn wf(self) -> bool {
        self.linked.subset_of(self.nodes.dom())
    }

    /// The graph before anything is known.
    pub open spec fn empty(select: PidSelect) -> GraphView {
        GraphView {
            select,
            self_node: None,
            clients: Map::empty(),
            target_client: None,
            nodes: Map::empty(),
            ports: Map::empty(),
            linked: Set::empty(),
        }
    }

    /// A client with a process id appears.
    pub open spec fn with_client(self, id: u32, pid: u32) -> GraphView {
        GraphView {
            clients: self.clients.insert(id, pid),
            target_client: if pid == self.select.spec_pid() {
                Some(id)
            } else {
                self.target_client
            },
            ..self
        }
    }

    /// What a new object changes; `None` where the capture has no use for it. Clients need a
    /// process id, nodes must be playing streams, and ports need a node and a direction.
    pub open spec fn registered(
        self,
        kind: ObjectKind,
        id: u32,
        props: Seq<(Seq<char>, Seq<char>)>,
    ) -> Option<GraphView> {
        match kind {
            ObjectKind::Client => match number(props, "pipewire.sec.pid"@) {
                Some(pid) => Some(self.with_client(id, pid)),
                None => None,
            },
            ObjectKind::Node => if crate::linux::props::text_at(props, "media.class"@)
                == "Stream/Output/Audio"@ {
                Some(
                    GraphView {
                        nodes: self.nodes.insert(
                            id,
                            NodeEntry {
                                owning_client_id: number(props, "client.id"@),
                                app_pid: number(props, "pipewire.sec.pid"@),
                            },
                        ),
                        ..self
                    },
                )
            } else {
                None
            },
            ObjectKind::Port => match (
                number(props, "node.id"@),
                direction_named(crate::linux::props::text_at(props, "port.direction"@)),
            ) {
                (Some(node_id), Some(direction)) => Some(
                    GraphView {
                        ports: self.ports.insert(
                            id,
                            PortView {
                                node_id,
                                direction,
                                channel: crate::linux::props::text_at(props, "audio.channel"@),
                            },
                        ),
                        ..self
                    },
                ),
                _ => None,
            },
            _ => None,
        }
    }

    /// Whether the capture should be linked to this node and is not. A node of an unknown
    /// process is never wanted, and [`PidSelect::Include`] wants one node in all.
    pub open spec fn wants(self, id: u32) -> bool {
        &&& self.nodes.contains_key(id)
        &&& !self.linked.contains(id)
        &&& match self.select {
            PidSelect::Include(pid) => self.linked =~= Set::empty() && node_pid(
                self.nodes[id],
                self.clients,
            ) == Some(pid),
            PidSelect::Exclude(pid) => node_pid(self.nodes[id], self.clients) is Some && node_pid(
                self.nodes[id],
                self.clients,
            ) != Some(pid),
        }
    }

    /// Whether `node` has a port in this direction.
    pub open spec fn has_port(self, node: u32, direction: PortDirection) -> bool {
        exists|id: u32|
            #![trigger self.ports.contains_key(id)]
            self.ports.contains_key(id) && self.ports[id].node_id == node
                && self.ports[id].direction == direction
    }

    /// Whether the ports for links to this node are known on both sides.
    pub open spec fn ready(self, id: u32) -> bool {
        &&& self.self_node is Some
        &&& self.has_port(self.self_node->0, PortDirection::In)
        &&& self.has_port(id, PortDirection::Out)
    }

    /// Whether `plan` links a wanted node whose ports are known, all its output ports with
    /// all input ports of the capture.
    pub open spec fn good_plan(self, plan: LinkPlan) -> bool {
        &&& self.wants(plan.node)
        &&& self.ready(plan.node)
        &&& self.self_node == Some(plan.self_node)
        &&& pairs_ports(plan.pairs@, self.ports, plan.node, plan.self_node)
    }

    /// The capture's own node is known once its id is a real one.
    pub open spec fn with_self(self, sid: u32) -> GraphView {
        if sid != 0 && sid != ID_ANY {
            GraphView { self_node: Some(sid), ..self }
        } else {
            self
        }
    }

    /// Whether the loss of this object makes every link void: the capture's own node, one of
    /// its inputs, or the client of the process in question.
    pub open spec fn voids_all(self, id: u32) -> bool {
        ||| self.self_node == Some(id)
        ||| self.target_client == Some(id)
        ||| (self.ports.contains_key(id) && self.self_node == Some(self.ports[id].node_id)
            && self.ports[id].direction == PortDirection::In)
    }

    /// Whether the loss of this object makes the links of `node` void: all are, the node
    /// itself is gone, or one of its outputs is.
    pub open spec fn voids(self, id: u32, node: u32) -> bool {
        self.linked.contains(node) && (self.voids_all(id) || id == node || (
        self.ports.contains_key(id) && self.ports[id].node_id == node && self.ports[id].direction
            == PortDirection::Out))
    }

    /// The graph without an object.
    pub open spec fn without(self, id: u32) -> GraphView {
        GraphView {
            select: self.select,
            self_node: if self.self_node == Some(id) {
                None
            } else {
                self.self_node
            },
            clients: self.clients.remove(id),
            target_client: if self.target_client == Some(id) {
                None
            } else {
                self.target_client
            },
            nodes: self.nodes.remove(id),
            ports: self.ports.remove(id),
            linked: self.linked.filter(|n: u32| !self.voids(id, n)),
        }
    }
}

/// Whether `pairs` are the links of some listing of the ports of both nodes.
pub open spec fn pairs_ports(
    pairs: Seq<(u32, u32)>,
    ports: Map<u32, PortView>,
    node: u32,
    self_node: u32,
) -> bool {
    exists|outs: Seq<(u32, Seq<char>)>, ins: Seq<(u32, Seq<char>)>|
        {
            &&& #[trigger] lists_ports(outs, ports, node, PortDirection::Out)
            &&& #[trigger] lists_ports(ins, ports, self_node, PortDirection::In)
            &&& pairs == crate::linux::pair::paired(outs, ins).pairs
        }
}

/// The 32-bit number under a key.
pub open spec fn number(props: Seq<(Seq<char>, Seq<char>)>, key: Seq<char>) -> Option<u32> {
    match crate::linux::props::number_at(props, key, u32::MAX as nat) {
        Some(n) => Some(n as u32),
        None => None,
    }
}

/// The direction that a text names.
pub open spec fn direction_named(text: Seq<char>) -> Option<PortDirection> {
    if text == "out"@ {
        Some(PortDirection::Out)
    } else if text == "in"@ {
        Some(PortDirection::In)
    } else {
        None
    }
}

/// What a process capture knows of the graph.
pub struct ProcessGraph {
    select: PidSelect,
    self_node: Option<u32>,
    clients: HashMap<u32, u32>,
    target_client: Option<u32>,
    nodes: HashMap<u32, NodeEntry>,
    ports: HashMap<u32, PortEntry>,
    linked: HashSet<u32>,
}

/// A table of ports with the texts as sequences.
pub open spec fn ports_table(ports: Map<u32, PortEntry>) -> Map<u32, PortView> {
    Map::new(|id: u32| ports.contains_key(id), |id: u32| ports[id]@)
}

impl View for ProcessGraph {
    type V = GraphView;

    closed spec fn view(&self) -> GraphView {
        GraphView {
            select: self.select,
            self_node: self.self_node,
            clients: self.clients@,
            target_client: self.target_client,
            nodes: self.nodes@,
            ports: ports_table(self.ports@),
            linked: self.linked@,
        }
    }
}

fn keys_of<V>(table: &HashMap<u32, V>) -> (keys: Vec<u32>)
    ensures
        keys@.no_duplicates(),
        forall|k: u32| keys@.contains(k) <==> table@.contains_key(k),
{
    let mut keys: Vec<u32> = Vec::new();
    let ghost all = vstd::std_specs::iter::IteratorSpec::remaining(
        &vstd::std_specs::hash::spec_keys_iter(table),
    );
    for key in iter: table.keys()
        invariant
            iter.seq() == all,
            keys@ == all.take(iter.index() as int).unref(),
    {
        keys.push(*key);
    }
    proof {
        assert(all.take(all.len() as int) == all);
        assert(all.unref().to_set() == table@.dom());
        assert forall|k: u32| keys@.contains(k) <==> table@.contains_key(k) by {
            assert(keys@.contains(k) <==> keys@.to_set().contains(k));
        }
    }
    keys
}

fn ports_of(
    ports: &HashMap<u32, PortEntry>,
    node: u32,
    direction: PortDirection,
) -> (list: Vec<(u32, String)>)
    ensures
        lists_ports(
            crate::linux::pair::ports_view(list@),
            ports_table(ports@),
            node,
            direction,
        ),
{
    let keys: Vec<u32> = keys_of(ports);
    let mut list: Vec<(u32, String)> = Vec::new();
    let ghost table = ports_table(ports@);
    let mut i: usize = 0;
    while i < keys.len()
        invariant
            i <= keys@.len(),
            keys@.no_duplicates(),
            forall|k: u32| keys@.contains(k) <==> ports@.contains_key(k),
            table == ports_table(ports@),
            forall|j: int|
                0 <= j < list@.len() ==> {
                    &&& (exists|m: int| 0 <= m < i && #[trigger] keys@[m] == list@[j].0)
                    &&& table.contains_key((#[trigger] list@[j]).0)
                    &&& table[list@[j].0] == (PortView {
                        node_id: node,
                        direction,
                        channel: list@[j].1@,
                    })
                },
            forall|a: int, b: int|
                0 <= a < b < list@.len() ==> (#[trigger] list@[a]).0 != (#[trigger] list@[b]).0,
            forall|m: int|
                0 <= m < i && table[#[trigger] keys@[m]].node_id == node
                    && table[keys@[m]].direction == direction ==> exists|j: int|
                    0 <= j < list@.len() && (#[trigger] list@[j]).0 == keys@[m],
        decreases keys.len() - i,
    {
        let id: u32 = keys[i];
        assert(keys@.contains(id));
        let ghost before = list@;
        if let Some(port) = ports.get(&id) {
            if port.node_id == node && port.direction == direction {
                list.push((id, port.channel.clone()));
                proof {
                    assert(list@.last().0 == id);
                    assert forall|j: int| 0 <= j < list@.len() implies {
                        &&& (exists|m: int| 0 <= m < i + 1 && #[trigger] keys@[m] == list@[j].0)
                        &&& table.contains_key((#[trigger] list@[j]).0)
                        &&& table[list@[j].0] == (PortView {
                            node_id: node,
                            direction,
                            channel: list@[j].1@,
                        })
                    } by {
                        if j < before.len() {
                            assert(list@[j] == before[j]);
                        } else {
                            assert(keys@[i as int] == list@[j].0);
                        }
                    }
                    assert forall|m: int|
                        0 <= m < i + 1 && table[#[trigger] keys@[m]].node_id == node
                            && table[keys@[m]].direction == direction implies exists|j: int|
                        0 <= j < list@.len() && (#[trigger] list@[j]).0 == keys@[m] by {
                        if m < i {
                            let j = choose|j: int|
                                0 <= j < before.len() && (#[trigger] before[j]).0 == keys@[m];
                            assert(list@[j].0 == keys@[m]);
                        } else {
                            assert(list@[before.len() as int].0 == keys@[m]);
                        }
                    }
                }
            }
        }
        i += 1;
    }
    proof {
        let seen = crate::linux::pair::ports_view(list@);
        assert forall|id: u32|
            #![trigger table.contains_key(id)]
            table.contains_key(id) && table[id].node_id == node && table[id].direction
                == direction implies crate::linux::pair::has_id(seen, id) by {
            assert(keys@.contains(id));
            let m = choose|m: int| 0 <= m < keys@.len() && keys@[m] == id;
            let j = choose|j: int| 0 <= j < list@.len() && (#[trigger] list@[j]).0 == keys@[m];
            assert(seen[j].0 == id);
        }
    }
    list
}

impl ProcessGraph {
    /// A graph of which nothing is known yet.
    pub fn new(select: PidSelect) -> (graph: ProcessGraph)
        ensures
            graph@ == GraphView::empty(select),
            graph@.wf(),
    {
        let graph = ProcessGraph {
            select,
            self_node: None,
            clients: HashMap::new(),
            target_client: None,
            nodes: HashMap::new(),
            ports: HashMap::new(),
            linked: HashSet::new(),
        };
        assert(graph@.ports =~= Map::empty());
        graph
    }

    /// A registry object appears. Says whether it matters, that is, whether to look for links
    /// again.
    pub fn register(&mut self, kind: ObjectKind, id: u32, props: &Props) -> (matters: bool)
        requires
            old(self)@.wf(),
        ensures
            final(self)@.wf(),
            matters == (old(self)@.registered(kind, id, props@) is Some),
            final(self)@ == (match old(self)@.registered(kind, id, props@) {
                Some(next) => next,
                None => old(self)@,
            }),
    {
        match kind {
            ObjectKind::Client => {
                match props.get_number("pipewire.sec.pid", u32::MAX) {
                    Some(pid) => {
                        self.clients.insert(id, pid);
                        if pid == self.select.pid() {
                            self.target_client = Some(id);
                        }
                        true
                    },
                    None => false,
                }
            },
            ObjectKind::Node => {
                let class: String = props.get_text("media.class");
                if !same_text(class.as_str(), "Stream/Output/Audio") {
                    return false;
                }
                let entry = NodeEntry {
                    owning_client_id: props.get_number("client.id", u32::MAX),
                    app_pid: props.get_number("pipewire.sec.pid", u32::MAX),
                };
                self.nodes.insert(id, entry);
                true
            },
            ObjectKind::Port => {
                let node_id: u32 = match props.get_number("node.id", u32::MAX) {
                    Some(n) => n,
                    None => {
                        return false;
                    },
                };
                let text: String = props.get_text("port.direction");
                let direction: PortDirection = if same_text(text.as_str(), "out") {
                    PortDirection::Out
                } else if same_text(text.as_str(), "in") {
                    PortDirection::In
                } else {
                    return false;
                };
                let channel: String = props.get_text("audio.channel");
                let ghost before = self.ports@;
                self.ports.insert(id, PortEntry { node_id, direction, channel });
                proof {
                    assert(ports_table(self.ports@) =~= ports_table(before).insert(
                        id,
                        PortView { node_id, direction, channel: channel@ },
                    ));
                }
                true
            },
            _ => false,
        }
    }

    /// Looks for links to make. `sid` is the id of the capture's own node as the stream
    /// reports it now.
    pub fn try_link(&mut self, sid: u32) -> (plans: Vec<LinkPlan>)
        requires
            old(self)@.wf(),
        ensures
            final(self)@.wf(),
            final(self)@ == (if old(self)@.select is Include && !(old(self)@.linked
                =~= Set::empty()) {
                old(self)@
            } else {
                old(self)@.with_self(sid)
            }),
            forall|k: int| 0 <= k < plans@.len() ==> final(self)@.good_plan(#[trigger] plans@[k]),
            forall|k: int, l: int|
                0 <= k < l < plans@.len() ==> (#[trigger] plans@[k]).node != (
                #[trigger] plans@[l]).node,
            final(self)@.select is Exclude ==> forall|id: u32|
                #[trigger] final(self)@.wants(id) && final(self)@.ready(id) ==> exists|k: int|
                    0 <= k < plans@.len() && (#[trigger] plans@[k]).node == id,
            final(self)@.select is Include ==> (exists|id: u32|
                #[trigger] final(self)@.wants(id) && plans@.len() == (if final(self)@.ready(id) {
                    1int
                } else {
                    0int
                })) || ((forall|id: u32| !(#[trigger] final(self)@.wants(id))) && plans@.len()
                == 0),
    {
        let mut plans: Vec<LinkPlan> = Vec::new();
        if let PidSelect::Include(_) = self.select {
            if !self.linked.is_empty() {
                assert(forall|id: u32| !(#[trigger] self@.wants(id)));
                return plans;
            }
        }
        if sid != 0 && sid != ID_ANY {
            self.self_node = Some(sid);
        }
        let self_node: u32 = match self.self_node {
            Some(n) => n,
            None => {
                return self.none_ready();
            },
        };
        let targets: Vec<u32> = self.targets();
        if targets.is_empty() {
            return self.none_ready();
        }
        let ins: Vec<(u32, String)> = ports_of(&self.ports, self_node, PortDirection::In);
        if ins.is_empty() {
            proof {
                self.lemma_no_ports(
                    crate::linux::pair::ports_view(ins@),
                    self_node,
                    PortDirection::In,
                );
            }
            return self.none_ready();
        }
        let ghost view = self@;
        let mut i: usize = 0;
        while i < targets.len()
            invariant
                i <= targets@.len(),
                view == self@,
                view.self_node == Some(self_node),
                lists_ports(
                    crate::linux::pair::ports_view(ins@),
                    view.ports,
                    self_node,
                    PortDirection::In,
                ),
                ins@.len() > 0,
                targets@.no_duplicates(),
                forall|m: int| 0 <= m < targets@.len() ==> view.wants(#[trigger] targets@[m]),
                forall|k: int| 0 <= k < plans@.len() ==> view.good_plan(#[trigger] plans@[k]),
                forall|k: int|
                    0 <= k < plans@.len() ==> exists|m: int|
                        0 <= m < i && #[trigger] targets@[m] == (#[trigger] plans@[k]).node,
                forall|k: int, l: int|
                    0 <= k < l < plans@.len() ==> (#[trigger] plans@[k]).node != (
                    #[trigger] plans@[l]).node,
                forall|m: int|
                    0 <= m < i && view.ready(#[trigger] targets@[m]) ==> exists|k: int|
                        0 <= k < plans@.len() && (#[trigger] plans@[k]).node == targets@[m],
                plans@.len() <= i,
                i == 1 && !view.ready(targets@[0]) ==> plans@.len() == 0,
            decreases targets.len() - i,
        {
            let node: u32 = targets[i];
            let ghost before = plans@;
            let outs: Vec<(u32, String)> = ports_of(&self.ports, node, PortDirection::Out);
            let ghost outs_view = crate::linux::pair::ports_view(outs@);
            let ghost ins_view = crate::linux::pair::ports_view(ins@);
            proof {
                self.lemma_no_ports(outs_view, node, PortDirection::Out);
                self.lemma_no_ports(ins_view, self_node, PortDirection::In);
            }
            if !outs.is_empty() {
                let pairs: Vec<(u32, u32)> = pair_ports(outs.as_slice(), ins.as_slice());
                proof {
                    crate::linux::pair::lemma_links_exist_iff_ports_do(outs_view, ins_view);
                    assert(lists_ports(outs_view, view.ports, node, PortDirection::Out));
                    assert(lists_ports(ins_view, view.ports, self_node, PortDirection::In));
                    assert(pairs_ports(pairs@, view.ports, node, self_node));
                }
                if !pairs.is_empty() {
                    plans.push(LinkPlan { node, self_node, pairs });
                    proof {
                        assert(view.good_plan(plans@.last()));
                        assert forall|k: int| 0 <= k < plans@.len() implies view.good_plan(
                            #[trigger] plans@[k],
                        ) by {
                            if k < before.len() {
                                assert(plans@[k] == before[k]);
                            }
                        }
                        assert forall|k: int| 0 <= k < plans@.len() implies exists|m: int|
                            0 <= m < i + 1 && #[trigger] targets@[m] == (
                            #[trigger] plans@[k]).node by {
                            if k < before.len() {
                                assert(plans@[k] == before[k]);
                                let m = choose|m: int|
                                    0 <= m < i && #[trigger] targets@[m] == before[k].node;
                                assert(targets@[m] == plans@[k].node);
                            } else {
                                assert(targets@[i as int] == plans@[k].node);
                            }
                        }
                        assert forall|k: int, l: int| 0 <= k < l < plans@.len() implies (
                        #[trigger] plans@[k]).node != (#[trigger] plans@[l]).node by {
                            assert(plans@[k] == before[k]);
                            if l < before.len() {
                                assert(plans@[l] == before[l]);
                            } else {
                                let m = choose|m: int|
                                    0 <= m < i && #[trigger] targets@[m] == before[k].node;
                                assert(targets@[m] != targets@[i as int]);
                            }
                        }
                        assert forall|m: int|
                            0 <= m < i + 1 && view.ready(#[trigger] targets@[m]) implies exists|
                            k: int,
                        |
                            0 <= k < plans@.len() && (#[trigger] plans@[k]).node == targets@[m] by {
                            if m < i {
                                let k = choose|k: int|
                                    0 <= k < before.len() && (#[trigger] before[k]).node
                                        == targets@[m];
                                assert(plans@[k].node == targets@[m]);
                            } else {
                                assert(plans@[before.len() as int].node == targets@[m]);
                            }
                        }
                    }
                }
            }
            i += 1;
        }
        proof {
            assert(view.wants(targets@[0]));
            if view.select is Exclude {
                assert forall|id: u32| #[trigger] view.wants(id) && view.ready(id) implies exists|
                    k: int,
                |
                    0 <= k < plans@.len() && (#[trigger] plans@[k]).node == id by {
                    assert(targets@.contains(id));
                    let m = choose|m: int| 0 <= m < targets@.len() && targets@[m] == id;
                    assert(view.ready(targets@[m]));
                }
            }
        }
        plans
    }

    proof fn lemma_no_ports(
        &self,
        list: Seq<(u32, Seq<char>)>,
        node: u32,
        direction: PortDirection,
    )
        requires
            lists_ports(list, self@.ports, node, direction),
        ensures
            self@.has_port(node, direction) <==> list.len() > 0,
    {
        if list.len() > 0 {
            assert(self@.ports.contains_key(list[0].0));
        }
        if self@.has_port(node, direction) {
            let id = choose|id: u32|
                #![trigger self@.ports.contains_key(id)]
                self@.ports.contains_key(id) && self@.ports[id].node_id == node
                    && self@.ports[id].direction == direction;
            assert(crate::linux::pair::has_id(list, id));
        }
    }

    /// No plan, where nothing that is wanted is ready.
    fn none_ready(&self) -> (plans: Vec<LinkPlan>)
        requires
            forall|id: u32| #[trigger] self@.wants(id) ==> !self@.ready(id),
        ensures
            plans@.len() == 0,
            (exists|id: u32| #[trigger] self@.wants(id) && !self@.ready(id)) || (forall|id: u32|
                !(#[trigger] self@.wants(id))),
    {
        Vec::new()
    }

    /// The nodes to link: one that is wanted for [`PidSelect::Include`], all of them for
    /// [`PidSelect::Exclude`].
    fn targets(&self) -> (targets: Vec<u32>)
        requires
            self@.select is Include ==> self@.linked =~= Set::empty(),
        ensures
            targets@.no_duplicates(),
            forall|m: int| 0 <= m < targets@.len() ==> self@.wants(#[trigger] targets@[m]),
            self@.select is Exclude ==> forall|id: u32| #[trigger]
                self@.wants(id) ==> targets@.contains(id),
            self@.select is Include ==> targets@.len() <= 1,
            targets@.len() == 0 ==> forall|id: u32| !(#[trigger] self@.wants(id)),
    {
        let keys: Vec<u32> = keys_of(&self.nodes);
        let mut targets: Vec<u32> = Vec::new();
        let mut i: usize = 0;
        while i < keys.len()
            invariant
                i <= keys@.len(),
                keys@.no_duplicates(),
                forall|k: u32| keys@.contains(k) <==> self.nodes@.contains_key(k),
                self@.select is Include ==> self@.linked =~= Set::empty(),
                self@.select is Include ==> targets@.len() == 0,
                targets@.no_duplicates(),
                forall|m: int| 0 <= m < targets@.len() ==> self@.wants(#[trigger] targets@[m]),
                forall|m: int|
                    0 <= m < targets@.len() ==> exists|j: int|
                        0 <= j < i && #[trigger] keys@[j] == #[trigger] targets@[m],
                forall|j: int|
                    0 <= j < i && self@.wants(#[trigger] keys@[j]) ==> targets@.contains(keys@[j]),
            decreases keys.len() - i,
        {
            let id: u32 = keys[i];
            assert(keys@.contains(id));
            let ghost before = targets@;
            if let Some(entry) = self.nodes.get(&id) {
                if !self.linked.contains(&id) {
                    let pid: Option<u32> = resolve_node_pid(entry, &self.clients);
                    match self.select {
                        PidSelect::Include(want) => {
                            if pid == Some(want) {
                                assert(self@.wants(id));
                                targets.push(id);
                                return targets;
                            }
                        },
                        PidSelect::Exclude(not) => {
                            if let Some(other) = pid {
                                if other != not {
                                    assert(self@.wants(id));
                                    targets.push(id);
                                    proof {
                                        assert(targets@.last() == id);
                                        assert(forall|k: u32| before.contains(k) ==> targets@.contains(
                                            k,
                                        )) by {
                                            assert forall|k: u32| before.contains(k) implies
                                                targets@.contains(k) by {
                                                let m = choose|m: int|
                                                    0 <= m < before.len() && before[m] == k;
                                                assert(targets@[m] == k);
                                            }
                                        }
                                        assert(targets@.contains(id));
                                        assert forall|m: int| 0 <= m < targets@.len() implies exists|
                                            j: int,
                                        |
                                            0 <= j < i + 1 && #[trigger] keys@[j]
                                                == #[trigger] targets@[m] by {
                                            if m < before.len() {
                                                assert(targets@[m] == before[m]);
                                                let j = choose|j: int|
                                                    0 <= j < i && #[trigger] keys@[j] == before[m];
                                                assert(keys@[j] == targets@[m]);
                                            } else {
                                                assert(keys@[i as int] == targets@[m]);
                                            }
                                        }
                                        assert(targets@.no_duplicates()) by {
                                            assert forall|a: int, b: int|
                                                0 <= a < targets@.len() && 0 <= b < targets@.len()
                                                    && a != b implies targets@[a] != targets@[b] by {
                                                if a < before.len() && b < before.len() {
                                                    assert(before[a] != before[b]);
                                                } else if a < before.len() {
                                                    let j = choose|j: int|
                                                        0 <= j < i && #[trigger] keys@[j] == before[a];
                                                    assert(keys@[j] != keys@[i as int]);
                                                } else {
                                                    let j = choose|j: int|
                                                        0 <= j < i && #[trigger] keys@[j] == before[b];
                                                    assert(keys@[j] != keys@[i as int]);
                                                }
                                            }
                                        }
                                    }
                                }
                            }
                        },
                    }
                }
            }
            i += 1;
        }
        proof {
            assert forall|id: u32| #[trigger] self@.wants(id) implies targets@.contains(id) by {
                assert(keys@.contains(id));
                let j = choose|j: int| 0 <= j < keys@.len() && keys@[j] == id;
                assert(self@.wants(keys@[j]));
            }
        }
        targets
    }

    /// The links of a plan were tried: of `wanted` links `made` came about. Only where all of
    /// them did is the node linked; else it stays as it was, and what was made is to be given
    /// up. Says which.
    pub fn confirm(&mut self, node: u32, wanted: usize, made: usize) -> (linked: bool)
        requires
            old(self)@.wf(),
            old(self)@.nodes.contains_key(node),
        ensures
            final(self)@.wf(),
            linked == (wanted == made),
            final(self)@ == (if wanted == made {
                old(self)@.with_link(node)
            } else {
                old(self)@
            }),
    {
        if wanted == made {
            self.linked.insert(node);
            true
        } else {
            false
        }
    }

    /// A registry object is gone.
    pub fn remove(&mut self, id: u32) -> (removal: Removal)
        requires
            old(self)@.wf(),
        ensures
            final(self)@.wf(),
            final(self)@ == old(self)@.without(id),
            removal.dropped@.no_duplicates(),
            forall|n: u32| removal.dropped@.contains(n) <==> #[trigger] old(self)@.voids(id, n),
            removal.relink == (old(self)@.voids_all(id) || removal.dropped@.len() > 0),
    {
        let was_self: bool = match self.self_node {
            Some(n) => n == id,
            None => false,
        };
        let was_target: bool = match self.target_client {
            Some(n) => n == id,
            None => false,
        };
        let mut owner: Option<u32> = None;
        let mut was_self_in: bool = false;
        if let Some(port) = self.ports.get(&id) {
            match port.direction {
                PortDirection::Out => {
                    if self.linked.contains(&port.node_id) {
                        owner = Some(port.node_id);
                    }
                },
                PortDirection::In => {
                    if let Some(n) = self.self_node {
                        was_self_in = n == port.node_id;
                    }
                },
            }
        }
        let ghost view = self@;
        let all: bool = was_self || was_self_in || was_target;
        assert(all == view.voids_all(id));
        let mut dropped: Vec<u32> = Vec::new();
        if all {
            dropped = linked_nodes(&self.linked);
            self.linked.clear();
        } else {
            if self.linked.contains(&id) {
                self.linked.remove(&id);
                dropped.push(id);
            }
            if let Some(n) = owner {
                if n != id {
                    self.linked.remove(&n);
                    dropped.push(n);
                }
            }
        }
        if was_target {
            self.target_client = None;
        }
        if was_self {
            self.self_node = None;
        }
        let ghost ports_before = self.ports@;
        self.nodes.remove(&id);
        self.clients.remove(&id);
        self.ports.remove(&id);
        proof {
            assert(ports_table(self.ports@) =~= ports_table(ports_before).remove(id));
            assert(self.linked@ =~= view.linked.filter(|n: u32| !view.voids(id, n)));
            assert forall|n: u32| dropped@.contains(n) <==> #[trigger] view.voids(id, n) by {
                if !all {
                    if view.voids(id, n) {
                        if n == id {
                            assert(dropped@[0] == id);
                        } else {
                            assert(owner == Some(n));
                            assert(dropped@.last() == n);
                        }
                    }
                }
            }
        }
        let relink: bool = all || dropped.len() > 0;
        Removal { dropped, relink }
    }

    /// Whether a node is linked.
    pub fn is_linked(&self, node: u32) -> (r: bool)
        ensures
            r == self@.linked.contains(node),
    {
        self.linked.contains(&node)
    }
}

fn linked_nodes(set: &HashSet<u32>) -> (list: Vec<u32>)
    ensures
        list@.no_duplicates(),
        forall|k: u32| list@.contains(k) <==> set@.contains(k),
{
    let mut list: Vec<u32> = Vec::new();
    let ghost all = vstd::std_specs::iter::IteratorSpec::remaining(
        &vstd::std_specs::hash::spec_hash_keys_iter(set),
    );
    for key in iter: set.iter()
        invariant
            iter.seq() == all,
            list@ == all.take(iter.index() as int).unref(),
    {
        list.push(*key);
    }
    proof {
        assert(all.take(all.len() as int) == all);
        assert forall|k: u32| list@.contains(k) <==> set@.contains(k) by {
            assert(list@.contains(k) <==> list@.to_set().contains(k));
        }
    }
    list
}

/// The graph after an object appeared, whether it mattered or not.
pub open spec fn after_arrival(
    g: GraphView,
    kind: ObjectKind,
    id: u32,
    props: Seq<(Seq<char>, Seq<char>)>,
) -> GraphView {
    match g.registered(kind, id, props) {
        Some(next) => next,
        None => g,
    }
}

/// Objects of different kinds may appear in either order.
pub proof fn lemma_arrival_order_does_not_matter(
    g: GraphView,
    kind_a: ObjectKind,
    a: u32,
    props_a: Seq<(Seq<char>, Seq<char>)>,
    kind_b: ObjectKind,
    b: u32,
    props_b: Seq<(Seq<char>, Seq<char>)>,
)
    requires
        kind_a != kind_b,
    ensures
        after_arrival(after_arrival(g, kind_a, a, props_a), kind_b, b, props_b) == after_arrival(
            after_arrival(g, kind_b, b, props_b),
            kind_a,
            a,
            props_a,
        ),
{
}

/// Two nodes, or two ports, with different ids may appear in either order.
pub proof fn lemma_arrival_order_within_a_kind(
    g: GraphView,
    kind: ObjectKind,
    a: u32,
    props_a: Seq<(Seq<char>, Seq<char>)>,
    b: u32,
    props_b: Seq<(Seq<char>, Seq<char>)>,
)
    requires
        kind == ObjectKind::Node || kind == ObjectKind::Port,
        a != b,
    ensures
        after_arrival(after_arrival(g, kind, a, props_a), kind, b, props_b) == after_arrival(
            after_arrival(g, kind, b, props_b),
            kind,
            a,
            props_a,
        ),
{
    let one = after_arrival(after_arrival(g, kind, a, props_a), kind, b, props_b);
    let two = after_arrival(after_arrival(g, kind, b, props_b), kind, a, props_a);
    assert(one.nodes =~= two.nodes);
    assert(one.ports =~= two.ports);
}

/// A capture that leaves a process out never links to a node of that process, nor to one
/// whose process is not known yet.
pub proof fn lemma_excluded_process_is_never_linked(g: GraphView, pid: u32, plan: LinkPlan)
    requires
        g.select == PidSelect::Exclude(pid),
        g.good_plan(plan),
    ensures
        node_pid(g.nodes[plan.node], g.clients) matches Some(other) && other != pid,
{
}

/// A capture of one process links to nodes of that process only, and to none while it has
/// one.
pub proof fn lemma_included_process_alone_is_linked(g: GraphView, pid: u32, plan: LinkPlan)
    requires
        g.select == PidSelect::Include(pid),
        g.good_plan(plan),
    ensures
        node_pid(g.nodes[plan.node], g.clients) == Some(pid),
        g.linked =~= Set::empty(),
{
}

/// A node whose client is not known becomes wanted as soon as the client is.
pub proof fn lemma_late_client_completes_a_node(g: GraphView, node: u32, client: u32, pid: u32)
    requires
        g.select == PidSelect::Include(pid),
        g.linked =~= Set::empty(),
        g.nodes.contains_key(node),
        g.nodes[node].app_pid is None,
        g.nodes[node].owning_client_id == Some(client),
        !g.clients.contains_key(client),
    ensures
        !g.wants(node),
        g.with_client(client, pid).wants(node),
{
}

/// What is gone leaves no trace, and a second removal changes nothing.
pub proof fn lemma_removed_is_gone(g: GraphView, id: u32)
    requires
        g.wf(),
    ensures
        ({
            let h = g.without(id);
            &&& !h.nodes.contains_key(id)
            &&& !h.ports.contains_key(id)
            &&& !h.clients.contains_key(id)
            &&& !h.linked.contains(id)
            &&& h.self_node != Some(id)
            &&& h.target_client != Some(id)
            &&& h.linked.subset_of(g.linked)
            &&& h.wf()
            &&& h.without(id) == h
        }),
{
    let h = g.without(id);
    let hh = h.without(id);
    assert(hh.nodes =~= h.nodes);
    assert(hh.ports =~= h.ports);
    assert(hh.clients =~= h.clients);
    assert(hh.linked =~= h.linked);
}

/// Where the capture's own side and the process in question stay, a node keeps its links
/// unless it or one of its outputs goes.
pub proof fn lemma_other_links_stay(g: GraphView, id: u32, node: u32)
    requires
        !g.voids_all(id),
        g.linked.contains(node),
        id != node,
        !(g.ports.contains_key(id) && g.ports[id].node_id == node && g.ports[id].direction
            == PortDirection::Out),
    ensures
        g.without(id).linked.contains(node),
{
}

/// Something that happens to a graph.
pub ghost enum GraphEvent {
    /// An object appears.
    Appeared { kind: ObjectKind, id: u32, props: Seq<(Seq<char>, Seq<char>)> },
    /// The capture's own node is reported.
    Reported { sid: u32 },
    /// The links of a plan are tried, and `made` of them come about.
    Tried { plan: LinkPlan, made: nat },
    /// An object goes.
    Gone { id: u32 },
}

impl GraphView {
    /// The graph with one more node linked.
    pub open spec fn with_link(self, node: u32) -> GraphView {
        GraphView { linked: self.linked.insert(node), ..self }
    }

    /// The graph after an event. A node is linked only where all links of its plan came about.
    pub open spec fn after(self, event: GraphEvent) -> GraphView {
        match event {
            GraphEvent::Appeared { kind, id, props } => after_arrival(self, kind, id, props),
            GraphEvent::Reported { sid } => self.with_self(sid),
            GraphEvent::Tried { plan, made } => if made == plan.pairs@.len() {
                self.with_link(plan.node)
            } else {
                self
            },
            GraphEvent::Gone { id } => self.without(id),
        }
    }

    /// Whether an event is one that a registry and the capture bring about: what appears has an
    /// id that is not in use, plans are good ones, and no client goes while a node that is
    /// known through it alone stays linked.
    pub open spec fn expects(self, event: GraphEvent) -> bool {
        match event {
            GraphEvent::Appeared { kind, id, props } => {
                &&& kind == ObjectKind::Client ==> !self.clients.contains_key(id)
                &&& kind == ObjectKind::Node ==> !self.nodes.contains_key(id)
            },
            GraphEvent::Reported { sid } => true,
            GraphEvent::Tried { plan, made } => self.good_plan(plan),
            GraphEvent::Gone { id } => forall|n: u32| #[trigger]
                self.linked.contains(n) && !self.voids(id, n) ==> self.nodes[n].app_pid is Some
                    || self.nodes[n].owning_client_id != Some(id),
        }
    }

    /// The graph after events in a row.
    pub open spec fn after_all(self, events: Seq<GraphEvent>) -> GraphView
        decreases events.len(),
    {
        if events.len() == 0 {
            self
        } else {
            self.after_all(events.drop_last()).after(events.last())
        }
    }

    /// Whether each of the events in a row is expected when it happens.
    pub open spec fn expects_all(self, events: Seq<GraphEvent>) -> bool
        decreases events.len(),
    {
        events.len() == 0 || {
            &&& self.expects_all(events.drop_last())
            &&& self.after_all(events.drop_last()).expects(events.last())
        }
    }

    /// Whether the right nodes are linked: nodes that play and whose process is known, for
    /// [`PidSelect::Include`] one node at most, of the process in question, and for
    /// [`PidSelect::Exclude`] nodes of other processes alone.
    pub open spec fn rightly_linked(self) -> bool {
        &&& self.wf()
        &&& forall|n: u32| #[trigger]
            self.linked.contains(n) ==> match (
                self.select,
                node_pid(self.nodes[n], self.clients),
            ) {
                (PidSelect::Include(pid), Some(own)) => own == pid,
                (PidSelect::Exclude(pid), Some(own)) => own != pid,
                (_, None) => false,
            }
        &&& self.select is Include ==> forall|a: u32, b: u32| #[trigger]
            self.linked.contains(a) && #[trigger] self.linked.contains(b) ==> a == b
    }
}

/// In every state the right nodes are linked, whatever has happened before.
pub proof fn lemma_right_nodes_are_linked(select: PidSelect, events: Seq<GraphEvent>)
    requires
        GraphView::empty(select).expects_all(events),
    ensures
        GraphView::empty(select).after_all(events).rightly_linked(),
        GraphView::empty(select).after_all(events).select == select,
    decreases events.len(),
{
    if events.len() > 0 {
        let before = events.drop_last();
        lemma_right_nodes_are_linked(select, before);
        lemma_right_nodes_stay_linked(GraphView::empty(select).after_all(before), events.last());
    }
}

/// One event leaves the right nodes linked.
proof fn lemma_right_nodes_stay_linked(g: GraphView, event: GraphEvent)
    requires
        g.rightly_linked(),
        g.expects(event),
    ensures
        g.after(event).rightly_linked(),
        g.after(event).select == g.select,
{
    let h = g.after(event);
    assert forall|n: u32| #[trigger] h.linked.contains(n) implies h.nodes.contains_key(n) && (
    match (h.select, node_pid(h.nodes[n], h.clients)) {
        (PidSelect::Include(pid), Some(own)) => own == pid,
        (PidSelect::Exclude(pid), Some(own)) => own != pid,
        (_, None) => false,
    }) by {
        if g.linked.contains(n) {
            assert(g.nodes.contains_key(n));
        }
    }
    if h.select is Include {
        assert forall|a: u32, b: u32| #[trigger]
            h.linked.contains(a) && #[trigger] h.linked.contains(b) implies a == b by {
            if g.linked.contains(a) && g.linked.contains(b) {
            } else {
                assert(!g.linked.contains(a) ==> event is Tried);
                assert(!g.linked.contains(b) ==> event is Tried);
            }
        }
    }
}

/// Plans that are good together can be tried one after the other: linking one node leaves the
/// plan of another one good.
pub proof fn lemma_plans_do_not_interfere(g: GraphView, a: LinkPlan, b: LinkPlan)
    requires
        g.select is Exclude,
        g.good_plan(a),
        g.good_plan(b),
        a.node != b.node,
    ensures
        g.with_link(a.node).good_plan(b),
{
}

/// A client is known by the process id that it names, and one that names none is passed over; the
/// client of the process in question is remembered.
pub proof fn lemma_clients_name_their_process(
    g: GraphView,
    id: u32,
    props: Seq<(Seq<char>, Seq<char>)>,
    pid: u32,
)
    ensures
        crate::linux::props::lookup(props, "pipewire.sec.pid"@) == Some(
            crate::text::decimal(pid as nat),
        ) ==> ({
            let h = g.registered(ObjectKind::Client, id, props);
            &&& h is Some
            &&& (h->0).clients == g.clients.insert(id, pid)
            &&& pid == (match g.select {
                PidSelect::Include(p) => p,
                PidSelect::Exclude(p) => p,
            }) ==> (h->0).target_client == Some(id)
            &&& pid != (match g.select {
                PidSelect::Include(p) => p,
                PidSelect::Exclude(p) => p,
            }) ==> (h->0).target_client == g.target_client
            &&& (h->0).nodes == g.nodes && (h->0).ports == g.ports && (h->0).linked == g.linked
        }),
        crate::linux::props::lookup(props, "pipewire.sec.pid"@) is None ==> g.registered(
            ObjectKind::Client,
            id,
            props,
        ) is None,
{
    crate::linux::props::lemma_numbers_are_read(
        props,
        "pipewire.sec.pid"@,
        pid as nat,
        u32::MAX as nat,
    );
}

/// A node that plays is known with the client and the process that it names; any other node is
/// passed over.
pub proof fn lemma_playing_nodes_are_known(
    g: GraphView,
    id: u32,
    props: Seq<(Seq<char>, Seq<char>)>,
    n: u32,
)
    ensures
        crate::linux::props::lookup(props, "media.class"@) == Some("Stream/Output/Audio"@) ==> ({
            let h = g.registered(ObjectKind::Node, id, props);
            let client = crate::linux::props::lookup(props, "client.id"@);
            let pid = crate::linux::props::lookup(props, "pipewire.sec.pid"@);
            &&& h is Some
            &&& (h->0).nodes.contains_key(id)
            &&& (h->0).nodes.remove(id) == g.nodes.remove(id)
            &&& client == Some(crate::text::decimal(n as nat)) ==> (
            h->0).nodes[id].owning_client_id == Some(n)
            &&& client is None ==> (h->0).nodes[id].owning_client_id is None
            &&& pid == Some(crate::text::decimal(n as nat)) ==> (h->0).nodes[id].app_pid == Some(n)
            &&& pid is None ==> (h->0).nodes[id].app_pid is None
            &&& (h->0).clients == g.clients && (h->0).ports == g.ports && (h->0).linked == g.linked
        }),
        crate::linux::props::lookup(props, "media.class"@) != Some("Stream/Output/Audio"@)
            ==> g.registered(ObjectKind::Node, id, props) is None,
{
    reveal_strlit("Stream/Output/Audio");
    assert(Seq::<char>::empty().len() != "Stream/Output/Audio"@.len());
    crate::linux::props::lemma_numbers_are_read(props, "client.id"@, n as nat, u32::MAX as nat);
    crate::linux::props::lemma_numbers_are_read(
        props,
        "pipewire.sec.pid"@,
        n as nat,
        u32::MAX as nat,
    );
    if let Some(h) = g.registered(ObjectKind::Node, id, props) {
        assert(h.nodes.remove(id) =~= g.nodes.remove(id));
    }
}

/// A port is known with its node, its direction and its channel; one without a node or a
/// direction is passed over.
pub proof fn lemma_ports_are_known(
    g: GraphView,
    id: u32,
    props: Seq<(Seq<char>, Seq<char>)>,
    node: u32,
)
    ensures
        ({
            let h = g.registered(ObjectKind::Port, id, props);
            let named = crate::linux::props::lookup(props, "node.id"@) == Some(
                crate::text::decimal(node as nat),
            );
            let direction = crate::linux::props::lookup(props, "port.direction"@);
            let channel = crate::linux::props::lookup(props, "audio.channel"@);
            &&& named && (direction == Some("out"@) || direction == Some("in"@)) ==> {
                &&& h is Some
                &&& (h->0).ports.contains_key(id)
                &&& (h->0).ports[id].node_id == node
                &&& (h->0).ports[id].direction == PortDirection::Out <==> direction == Some("out"@)
                &&& (h->0).ports[id].direction == PortDirection::In <==> direction == Some("in"@)
                &&& channel is Some ==> (h->0).ports[id].channel == channel->0
                &&& channel is None ==> (h->0).ports[id].channel.len() == 0
                &&& (h->0).nodes == g.nodes && (h->0).clients == g.clients && (h->0).linked
                    == g.linked
            }
            &&& crate::linux::props::lookup(props, "node.id"@) is None ==> h is None
            &&& direction != Some("out"@) && direction != Some("in"@) ==> h is None
            &&& g.registered(ObjectKind::Metadata, id, props) is None
            &&& g.registered(ObjectKind::Other, id, props) is None
        }),
{
    reveal_strlit("out");
    reveal_strlit("in");
    let empty = Seq::<char>::empty();
    assert("out"@.len() != "in"@.len());
    assert(empty.len() != "out"@.len() && empty.len() != "in"@.len());
    crate::linux::props::lemma_numbers_are_read(props, "node.id"@, node as nat, u32::MAX as nat);
}

/// A node belongs to the process that it names itself, and otherwise to that of its client.
pub proof fn lemma_nodes_belong_to_processes(entry: NodeEntry, clients: Map<u32, u32>)
    ensures
        entry.app_pid is Some ==> node_pid(entry, clients) == entry.app_pid,
        entry.app_pid is None && entry.owning_client_id is Some && clients.contains_key(
            entry.owning_client_id->0,
        ) ==> node_pid(entry, clients) == Some(clients[entry.owning_client_id->0]),
        entry.app_pid is None && entry.owning_client_id is Some && !clients.contains_key(
            entry.owning_client_id->0,
        ) ==> node_pid(entry, clients) is None,
        entry.app_pid is None && entry.owning_client_id is None ==> node_pid(entry, clients)
            is None,
{
}

/// A known node is wanted where its process is: for a capture of one process a node of that
/// process, as long as none is linked, and for a capture of everything else every node of another
/// known process that is not linked.
pub proof fn lemma_what_nodes_are_wanted(g: GraphView, node: u32, own: u32, pid: u32)
    requires
        g.nodes.contains_key(node),
        node_pid(g.nodes[node], g.clients) == Some(own),
    ensures
        g.select == PidSelect::Include(pid) ==> (g.wants(node) <==> own == pid && g.linked
            == Set::<u32>::empty()),
        g.select == PidSelect::Exclude(pid) ==> (g.wants(node) <==> own != pid && !g.linked.contains(
            node,
        )),
{
    if g.linked =~= Set::empty() {
        assert(!g.linked.contains(node));
    }
}

/// Links can be planned as soon as the capture has an input and the node an output.
pub proof fn lemma_when_links_can_be_planned(g: GraphView, node: u32, own: u32, a: u32, b: u32)
    requires
        g.self_node == Some(own),
        g.ports.contains_key(a),
        g.ports[a].node_id == own,
        g.ports[a].direction == PortDirection::In,
        g.ports.contains_key(b),
        g.ports[b].node_id == node,
        g.ports[b].direction == PortDirection::Out,
    ensures
        g.ready(node),
        !(GraphView { self_node: None, ..g }).ready(node),
{
}

/// What goes takes the links with it that it is part of, and leaves all the other ones, and all
/// the other objects.
pub proof fn lemma_what_goes_takes_its_links(g: GraphView, id: u32, node: u32, other: u32)
    requires
        other != id,
        g.linked.contains(node),
    ensures
        ({
            let h = g.without(id);
            let input = g.ports.contains_key(id) && g.ports[id].direction == PortDirection::In
                && g.self_node == Some(g.ports[id].node_id);
            let output = g.ports.contains_key(id) && g.ports[id].direction == PortDirection::Out
                && g.ports[id].node_id == node;
            &&& !h.linked.contains(node) <==> g.self_node == Some(id) || g.target_client == Some(id)
                || input || id == node || output
            &&& h.nodes.contains_key(other) <==> g.nodes.contains_key(other)
            &&& h.ports.contains_key(other) <==> g.ports.contains_key(other)
            &&& h.clients.contains_key(other) <==> g.clients.contains_key(other)
            &&& h.select == g.select
            &&& g.self_node != Some(id) ==> h.self_node == g.self_node
            &&& g.target_client != Some(id) ==> h.target_client == g.target_client
        }),
{
}

/// The capture's own node is known from a report of any id but 0 and the one that stands for
/// none.
pub proof fn lemma_the_own_node_is_reported(g: GraphView, sid: u32)
    ensures
        sid != 0 && sid != 0xffff_ffff ==> g.with_self(sid) == (GraphView {
            self_node: Some(sid),
            ..g
        }),
        sid == 0 || sid == 0xffff_ffff ==> g.with_self(sid) == g,
        g.with_link(sid).linked.contains(sid),
        g.with_link(sid).linked.remove(sid) == g.linked.remove(sid),
{
    assert(g.with_link(sid).linked.remove(sid) =~= g.linked.remove(sid));
}

/// A node counts as linked only where all links of its plan came about.
pub proof fn lemma_whole_plans_count(
    g: &mut ProcessGraph,
    node: u32,
    wanted: usize,
    made: usize,
    linked: bool,
)
    requires
        old(g)@.wf(),
        old(g)@.nodes.contains_key(node),
        call_ensures(ProcessGraph::confirm, (g, node, wanted, made), linked),
    ensures
        linked <==> wanted == made,
        wanted == made ==> final(g)@.linked == old(g)@.linked.insert(node),
        wanted != made ==> final(g)@ == old(g)@,
{
}

/// What is removed is told with the nodes whose links are void, and linking is to be tried again
/// where there are such, or where the capture's own side is gone.
pub proof fn lemma_removals_are_told(g: &mut ProcessGraph, id: u32, removal: Removal, n: u32)
    requires
        old(g)@.wf(),
        call_ensures(ProcessGraph::remove, (g, id), removal),
    ensures
        removal.dropped@.contains(n) <==> old(g)@.linked.contains(n) && !final(g)@.linked.contains(
            n,
        ),
        removal.dropped@.contains(n) ==> removal.relink,
        old(g)@.self_node == Some(id) ==> removal.relink,
        !final(g)@.nodes.contains_key(id) && !final(g)@.ports.contains_key(id),
{
    assert(removal.dropped@.contains(n) <==> old(g)@.voids(id, n));
}

/// A process source that includes selects its process, and one that excludes every other one.
pub proof fn lemma_modes_select(pid: u32, mode: ProcessMode, select: PidSelect)
    requires
        call_ensures(PidSelect::of_mode, (pid, mode), select),
    ensures
        mode == ProcessMode::Include ==> select == PidSelect::Include(pid),
        mode == ProcessMode::Exclude ==> select == PidSelect::Exclude(pid),
{
}

} // verus!
