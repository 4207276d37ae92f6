//! Vertices: local, remote or borrowed, with their adjacency and payload.
use std::collections::HashSet;
use vstd::prelude::*;

verus! {

broadcast use vstd::std_specs::hash::group_hash_axioms;

/// Identifier of a vertex, unique within one graph.
pub type VertexID = u32;

/// Identifier of a peer machine.
pub type MachineID = u32;

/// Wrapper around an element value, so that it travels on its own across
/// a machine boundary.
pub struct Data<T>(pub T);

/// Where a vertex lives: here, on another machine, or here as a copy
/// borrowed from its remote owner.
pub enum VertexType<T> {
    Local(LocalVertex<T>),
    Remote(RemoteVertex),
    Borrowed(LocalVertex<T>),
}

/// A vertex of the graph: its identifier and where it lives.
pub struct Vertex<T> {
    pub id: VertexID,
    pub v_type: VertexType<T>,
}

/// The kind of a vertex, as chosen when a graph is built.
#[derive(Clone, Copy, Debug, PartialEq, Eq, Structural)]
pub enum VertexKind {
    Local,
    Remote,
    Borrowed,
}

/// A vertex whose adjacency and payload reside in this process.
pub struct LocalVertex<T> {
    incoming_edges: HashSet<VertexID>,
    outgoing_edges: HashSet<VertexID>,
    edges: HashSet<VertexID>,
    data: Option<Data<T>>,
    borrowed_in: bool,
    leased_out: bool,
}

/// A reference to a vertex that lives on another machine.
pub struct RemoteVertex {
    location: MachineID,
}

impl Data<isize> {
    /// Adds `other` to the wrapped value.
    pub fn add_assign(&mut self, other: isize)
        requires
            isize::MIN <= old(self).0 + other <= isize::MAX,
        ensures
            final(self).0 == old(self).0 + other,
    {
        self.0 = self.0 + other;
    }
}

impl<T> Vertex<T> {
    /// A vertex whose adjacency and payload are held in this process.
    pub open spec fn is_resident(&self) -> bool {
        !(self.v_type is Remote)
    }

    /// The local part of a resident vertex.
    pub open spec fn local(&self) -> LocalVertex<T>
        recommends
            self.is_resident(),
    {
        match self.v_type {
            VertexType::Local(l) => l,
            VertexType::Borrowed(l) => l,
            VertexType::Remote(_) => arbitrary(),
        }
    }

    pub open spec fn spec_kind(&self) -> VertexKind {
        match self.v_type {
            VertexType::Local(_) => VertexKind::Local,
            VertexType::Remote(_) => VertexKind::Remote,
            VertexType::Borrowed(_) => VertexKind::Borrowed,
        }
    }

    /// The kind of this vertex.
    pub fn kind(&self) -> (r: VertexKind)
        ensures
            r == self.spec_kind(),
    {
        match &self.v_type {
            VertexType::Local(_) => VertexKind::Local,
            VertexType::Remote(_) => VertexKind::Remote,
            VertexType::Borrowed(_) => VertexKind::Borrowed,
        }
    }

    pub open spec fn spec_remote_location(&self) -> Option<MachineID> {
        match self.v_type {
            VertexType::Remote(rv) => Some(rv.spec_location()),
            _ => None,
        }
    }

    /// The machine to send an execution request to, or `None` when the
    /// vertex executes in this process.
    pub fn remote_location(&self) -> (r: Option<MachineID>)
        ensures
            r == self.spec_remote_location(),
    {
        match &self.v_type {
            VertexType::Remote(rv) => Some(rv.location()),
            _ => None,
        }
    }

    /// Outgoing neighbours. Only resident vertices hold adjacency.
    pub fn children(&self) -> (r: &HashSet<VertexID>)
        requires
            self.is_resident(),
        ensures
            r@ == self.local().spec_children(),
    {
        match &self.v_type {
            VertexType::Local(local_v) => local_v.children(),
            VertexType::Borrowed(local_v) => local_v.children(),
            VertexType::Remote(_) => vstd::pervasive::unreached(),
        }
    }

    /// Incoming neighbours. Only resident vertices hold adjacency.
    pub fn parents(&self) -> (r: &HashSet<VertexID>)
        requires
            self.is_resident(),
        ensures
            r@ == self.local().spec_parents(),
    {
        match &self.v_type {
            VertexType::Local(local_v) => local_v.parents(),
            VertexType::Borrowed(local_v) => local_v.parents(),
            VertexType::Remote(_) => vstd::pervasive::unreached(),
        }
    }

    /// All neighbours. Only resident vertices hold adjacency.
    pub fn edges(&self) -> (r: &HashSet<VertexID>)
        requires
            self.is_resident(),
        ensures
            r@ == self.local().spec_edges(),
    {
        match &self.v_type {
            VertexType::Local(local_v) => local_v.edges(),
            VertexType::Borrowed(local_v) => local_v.edges(),
            VertexType::Remote(_) => vstd::pervasive::unreached(),
        }
    }

    /// The payload. Only resident vertices hold one.
    pub fn get_val(&self) -> (r: &Option<Data<T>>)
        requires
            self.is_resident(),
        ensures
            *r == self.local().spec_data(),
    {
        match &self.v_type {
            VertexType::Local(local_v) => local_v.get_data(),
            VertexType::Borrowed(local_v) => local_v.get_data(),
            VertexType::Remote(_) => vstd::pervasive::unreached(),
        }
    }
}

impl<T> LocalVertex<T> {
    pub closed spec fn spec_children(&self) -> Set<VertexID> {
        self.outgoing_edges@
    }

    pub closed spec fn spec_parents(&self) -> Set<VertexID> {
        self.incoming_edges@
    }

    pub closed spec fn spec_edges(&self) -> Set<VertexID> {
        self.edges@
    }

    pub closed spec fn spec_data(&self) -> Option<Data<T>> {
        self.data
    }

    pub closed spec fn spec_borrowed_in(&self) -> bool {
        self.borrowed_in
    }

    pub closed spec fn spec_leased_out(&self) -> bool {
        self.leased_out
    }

    /// A vertex with the given adjacency and payload, neither borrowed
    /// nor leased.
    pub fn new(
        incoming: HashSet<VertexID>,
        outgoing: HashSet<VertexID>,
        edges: HashSet<VertexID>,
        data: Option<Data<T>>,
    ) -> (r: Self)
        ensures
            r.spec_parents() == incoming@,
            r.spec_children() == outgoing@,
            r.spec_edges() == edges@,
            r.spec_data() == data,
            !r.spec_borrowed_in(),
            !r.spec_leased_out(),
    {
        LocalVertex {
            incoming_edges: incoming,
            outgoing_edges: outgoing,
            edges,
            data,
            borrowed_in: false,
            leased_out: false,
        }
    }

    /// A vertex with edges from each of `incoming` and to each of
    /// `outgoing`, holding `data`.
    pub fn create_vertex(incoming: &[VertexID], outgoing: &[VertexID], data: Data<T>) -> (r: Self)
        ensures
            r.spec_parents() == incoming@.to_set(),
            r.spec_children() == outgoing@.to_set(),
            r.spec_edges() == incoming@.to_set() + outgoing@.to_set(),
            r.spec_data() == Some(data),
            !r.spec_borrowed_in(),
            !r.spec_leased_out(),
    {
        let incoming_set = id_set(incoming);
        let outgoing_set = id_set(outgoing);
        let mut all = id_set(incoming);
        let mut i: usize = 0;
        while i < outgoing.len()
            invariant
                i <= outgoing@.len(),
                all@ == incoming@.to_set() + outgoing@.subrange(0, i as int).to_set(),
            decreases outgoing@.len() - i,
        {
            all.insert(outgoing[i]);
            proof {
                assert(outgoing@.subrange(0, i + 1) == outgoing@.subrange(0, i as int).push(
                    outgoing@[i as int],
                ));
                outgoing@.subrange(0, i as int).lemma_push_to_set_commute(outgoing@[i as int]);
            }
            i += 1;
        }
        assert(outgoing@.subrange(0, outgoing@.len() as int) == outgoing@);
        LocalVertex::new(incoming_set, outgoing_set, all, Some(data))
    }

    /// Mutable access to the payload. The adjacency and the ownership
    /// marks stay as they were.
    pub fn get_data_mut(&mut self) -> (r: &mut Option<Data<T>>)
        ensures
            *r == old(self).spec_data(),
            final(self).spec_data() == *final(r),
            final(self).spec_children() == old(self).spec_children(),
            final(self).spec_parents() == old(self).spec_parents(),
            final(self).spec_edges() == old(self).spec_edges(),
            final(self).spec_borrowed_in() == old(self).spec_borrowed_in(),
            final(self).spec_leased_out() == old(self).spec_leased_out(),
    {
        &mut self.data
    }

    /// Replaces the payload and hands back the previous one. While the
    /// vertex is leased out the write is discarded and `None` comes back.
    pub fn set_data(&mut self, data: Data<T>) -> (r: Option<Data<T>>)
        ensures
            final(self).spec_children() == old(self).spec_children(),
            final(self).spec_parents() == old(self).spec_parents(),
            final(self).spec_edges() == old(self).spec_edges(),
            final(self).spec_borrowed_in() == old(self).spec_borrowed_in(),
            final(self).spec_leased_out() == old(self).spec_leased_out(),
            old(self).spec_leased_out() ==> r is None && final(self).spec_data() == old(
                self,
            ).spec_data(),
            !old(self).spec_leased_out() ==> r == old(self).spec_data() && final(self).spec_data()
                == Some(data),
    {
        if self.leased_out {
            None
        } else {
            let previous = self.data.take();
            self.data = Some(data);
            previous
        }
    }

    /// Records whether the authoritative copy of this vertex is lent to
    /// another machine. Nothing else changes.
    pub fn mark_leased_out(&mut self, leased: bool)
        ensures
            final(self).spec_leased_out() == leased,
            final(self).spec_data() == old(self).spec_data(),
            final(self).spec_children() == old(self).spec_children(),
            final(self).spec_parents() == old(self).spec_parents(),
            final(self).spec_edges() == old(self).spec_edges(),
            final(self).spec_borrowed_in() == old(self).spec_borrowed_in(),
    {
        self.leased_out = leased;
    }

    pub fn children(&self) -> (r: &HashSet<VertexID>)
        ensures
            r@ == self.spec_children(),
    {
        &self.outgoing_edges
    }

    pub fn parents(&self) -> (r: &HashSet<VertexID>)
        ensures
            r@ == self.spec_parents(),
    {
        &self.incoming_edges
    }

    pub fn edges(&self) -> (r: &HashSet<VertexID>)
        ensures
            r@ == self.spec_edges(),
    {
        &self.edges
    }

    pub fn get_data(&self) -> (r: &Option<Data<T>>)
        ensures
            *r == self.spec_data(),
    {
        &self.data
    }

    pub fn is_borrowed_in(&self) -> (r: bool)
        ensures
            r == self.spec_borrowed_in(),
    {
        self.borrowed_in
    }

    pub fn is_leased_out(&self) -> (r: bool)
        ensures
            r == self.spec_leased_out(),
    {
        self.leased_out
    }
}

/// Adjacency and payload are readable on exactly the local and borrowed
/// vertices, where they sit in the vertex's own `LocalVertex`; a remote
/// vertex carries only the machine that owns it.
pub proof fn lemma_accessors_by_kind<T>(v: Vertex<T>)
    ensures
        v.is_resident() <==> v.spec_kind() != VertexKind::Remote,
        v.spec_kind() == VertexKind::Remote <==> v.spec_remote_location() is Some,
        v.spec_kind() == VertexKind::Local ==> v.v_type == VertexType::Local(v.local()),
        v.spec_kind() == VertexKind::Borrowed ==> v.v_type == VertexType::Borrowed(v.local()),
{
}

/// The set of the identifiers in `ids`.
fn id_set(ids: &[VertexID]) -> (r: HashSet<VertexID>)
    ensures
        r@ == ids@.to_set(),
{
    let mut set: HashSet<VertexID> = HashSet::new();
    let mut i: usize = 0;
    while i < ids.len()
        invariant
            i <= ids@.len(),
            set@ == ids@.subrange(0, i as int).to_set(),
        decreases ids@.len() - i,
    {
        set.insert(ids[i]);
        proof {
            assert(ids@.subrange(0, i + 1) == ids@.subrange(0, i as int).push(ids@[i as int]));
            ids@.subrange(0, i as int).lemma_push_to_set_commute(ids@[i as int]);
        }
        i += 1;
    }
    assert(ids@.subrange(0, ids@.len() as int) == ids@);
    set
}

impl RemoteVertex {
    pub closed spec fn spec_location(&self) -> MachineID {
        self.location
    }

    /// A reference to a vertex held by machine `location`.
    pub fn new(location: MachineID) -> (r: Self)
        ensures
            r.spec_location() == location,
    {
        Self { location }
    }

    /// The machine that owns the referenced vertex.
    pub fn location(&self) -> (r: MachineID)
        ensures
            r == self.spec_location(),
    {
        self.location
    }
}

} // verus!
