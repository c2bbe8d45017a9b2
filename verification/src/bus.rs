//! Invocation routing: resolve an abstract call target from configured
//! binding/namespace pairs or interface descriptors, and validate a chosen
//! target against the interfaces a caller intends to use.
//!
//! The resolver is a pure function of the static configuration and the
//! request's metadata: it performs no I/O and has no side effects beyond its
//! fatal-reject results.

use vstd::prelude::*;

verus! {

/// A resolved call destination: a named configured capability link, or an
/// addressable peer (by stable id or alias).
pub enum TargetEntity {
    Link(Option<String>),
    Peer(String),
}

/// Mathematical model of a [`TargetEntity`].
pub enum TargetEntityView {
    Link(Option<Seq<char>>),
    Peer(Seq<char>),
}

impl View for TargetEntity {
    type V = TargetEntityView;

    open spec fn view(&self) -> TargetEntityView {
        match self {
            TargetEntity::Link(None) => TargetEntityView::Link(None),
            TargetEntity::Link(Some(name)) => TargetEntityView::Link(Some(name@)),
            TargetEntity::Peer(id) => TargetEntityView::Peer(id@),
        }
    }
}

impl TargetEntity {
    /// An owned copy of this target.
    pub fn duplicate(&self) -> (r: Self)
        ensures
            r@ == self@,
    {
        match self {
            TargetEntity::Link(None) => TargetEntity::Link(None),
            TargetEntity::Link(Some(name)) => TargetEntity::Link(Some(name.clone())),
            TargetEntity::Peer(id) => TargetEntity::Peer(id.clone()),
        }
    }
}

/// Whether two targets denote the same destination.
pub fn same_target(a: &TargetEntity, b: &TargetEntity) -> (r: bool)
    ensures
        r == (a@ == b@),
{
    match (a, b) {
        (TargetEntity::Link(None), TargetEntity::Link(None)) => true,
        (TargetEntity::Link(Some(x)), TargetEntity::Link(Some(y))) => *x == *y,
        (TargetEntity::Peer(x), TargetEntity::Peer(y)) => *x == *y,
        _ => false,
    }
}

/// A well-known capability interface, or an application-defined one.
pub enum TargetInterface {
    KeyValueAtomic,
    KeyValueReadWrite,
    MessagingConsumer,
    OutboundHttp,
    BlobStore,
    Custom { namespace: String, package: String, interface: String },
}

/// Mathematical model of a [`TargetInterface`].
pub enum TargetInterfaceView {
    KeyValueAtomic,
    KeyValueReadWrite,
    MessagingConsumer,
    OutboundHttp,
    BlobStore,
    Custom { namespace: Seq<char>, package: Seq<char>, interface: Seq<char> },
}

impl View for TargetInterface {
    type V = TargetInterfaceView;

    open spec fn view(&self) -> TargetInterfaceView {
        match self {
            TargetInterface::KeyValueAtomic => TargetInterfaceView::KeyValueAtomic,
            TargetInterface::KeyValueReadWrite => TargetInterfaceView::KeyValueReadWrite,
            TargetInterface::MessagingConsumer => TargetInterfaceView::MessagingConsumer,
            TargetInterface::OutboundHttp => TargetInterfaceView::OutboundHttp,
            TargetInterface::BlobStore => TargetInterfaceView::BlobStore,
            TargetInterface::Custom { namespace, package, interface } =>
                TargetInterfaceView::Custom {
                namespace: namespace@,
                package: package@,
                interface: interface@,
            },
        }
    }
}

/// The binding name under which an interface family is conventionally
/// wired; an application-defined interface goes by its namespace.
pub open spec fn spec_binding_of(i: TargetInterfaceView) -> Seq<char> {
    match i {
        TargetInterfaceView::KeyValueAtomic => "keyvalue"@,
        TargetInterfaceView::KeyValueReadWrite => "keyvalue"@,
        TargetInterfaceView::MessagingConsumer => "messaging"@,
        TargetInterfaceView::OutboundHttp => "httpclient"@,
        TargetInterfaceView::BlobStore => "blobstore"@,
        TargetInterfaceView::Custom { namespace, .. } => namespace,
    }
}

impl TargetInterface {
    /// Executable twin of [`spec_binding_of`].
    pub fn binding_of(&self) -> (r: String)
        ensures
            r@ == spec_binding_of(self@),
    {
        match self {
            TargetInterface::KeyValueAtomic => String::from_str("keyvalue"),
            TargetInterface::KeyValueReadWrite => String::from_str("keyvalue"),
            TargetInterface::MessagingConsumer => String::from_str("messaging"),
            TargetInterface::OutboundHttp => String::from_str("httpclient"),
            TargetInterface::BlobStore => String::from_str("blobstore"),
            TargetInterface::Custom { namespace, .. } => namespace.clone(),
        }
    }
}

/// Whether two interface descriptors describe the same interface.
pub fn same_interface(a: &TargetInterface, b: &TargetInterface) -> (r: bool)
    ensures
        r == (a@ == b@),
{
    match (a, b) {
        (TargetInterface::KeyValueAtomic, TargetInterface::KeyValueAtomic) => true,
        (TargetInterface::KeyValueReadWrite, TargetInterface::KeyValueReadWrite) => true,
        (TargetInterface::MessagingConsumer, TargetInterface::MessagingConsumer) => true,
        (TargetInterface::OutboundHttp, TargetInterface::OutboundHttp) => true,
        (TargetInterface::BlobStore, TargetInterface::BlobStore) => true,
        (
            TargetInterface::Custom { namespace: n1, package: p1, interface: i1 },
            TargetInterface::Custom { namespace: n2, package: p2, interface: i2 },
        ) => *n1 == *n2 && *p1 == *p2 && *i1 == *i2,
        _ => false,
    }
}

/// First configured target for `(binding, namespace)` in `s`.
pub open spec fn binding_find(
    s: Seq<(String, String, TargetEntity)>,
    binding: Seq<char>,
    namespace: Seq<char>,
) -> Option<TargetEntityView>
    decreases s.len(),
{
    if s.len() == 0 {
        None
    } else if s[0].0@ == binding && s[0].1@ == namespace {
        Some(s[0].2@)
    } else {
        binding_find(s.skip(1), binding, namespace)
    }
}

/// First configured target for interface `i` in `s`.
pub open spec fn interface_find(
    s: Seq<(TargetInterface, TargetEntity)>,
    i: TargetInterfaceView,
) -> Option<TargetEntityView>
    decreases s.len(),
{
    if s.len() == 0 {
        None
    } else if s[0].0@ == i {
        Some(s[0].1@)
    } else {
        interface_find(s.skip(1), i)
    }
}

/// Why a routing request was rejected.  Both are fatal configuration
/// errors, reported to the caller's supervisory layer.
#[derive(Clone, Copy, PartialEq, Eq, Structural, Debug)]
pub enum BusError {
    /// No target is configured for the requested binding/namespace pair.
    UnknownTarget,
    /// The chosen target is not configured to serve one of the interfaces
    /// the caller intends to use.
    TargetRejected,
}

/// Static routing configuration supplied at session construction: targets
/// by `(binding, namespace)` pair and targets by interface.
pub struct RoutingConfig {
    pub bindings: Vec<(String, String, TargetEntity)>,
    pub interfaces: Vec<(TargetInterface, TargetEntity)>,
}

impl RoutingConfig {
    /// The target configured for `(binding, namespace)`, if any.
    pub open spec fn route_of(&self, binding: Seq<char>, namespace: Seq<char>) -> Option<
        TargetEntityView,
    > {
        binding_find(self.bindings@, binding, namespace)
    }

    /// The target configured for interface `i`, if any.
    pub open spec fn interface_route(&self, i: TargetInterfaceView) -> Option<TargetEntityView> {
        interface_find(self.interfaces@, i)
    }

    /// Whether the configuration actually wires `target` to serve interface
    /// `i`: either the interface table maps `i` to `target`, or some
    /// binding/namespace pair under the interface's binding name does.
    pub open spec fn serves(&self, target: TargetEntityView, i: TargetInterfaceView) -> bool {
        ||| self.interface_route(i) == Some(target)
        ||| exists|j: int| #![auto]
            0 <= j < self.bindings@.len() && self.bindings@[j].0@ == spec_binding_of(i)
                && self.bindings@[j].2@ == target
    }

    /// An empty configuration, which routes nothing.
    pub fn new() -> (r: Self)
        ensures
            r.bindings@.len() == 0,
            r.interfaces@.len() == 0,
    {
        RoutingConfig { bindings: Vec::new(), interfaces: Vec::new() }
    }

    /// Configure `(binding, namespace)` to route to `target`.  An earlier
    /// entry for the same pair wins.
    pub fn add_binding(&mut self, binding: String, namespace: String, target: TargetEntity)
        ensures
            final(self).bindings@ == old(self).bindings@.push((binding, namespace, target)),
            final(self).interfaces@ == old(self).interfaces@,
    {
        self.bindings.push((binding, namespace, target));
    }

    /// Configure interface `interface` to route to `target`.  An earlier
    /// entry for the same interface wins.
    pub fn add_interface(&mut self, interface: TargetInterface, target: TargetEntity)
        ensures
            final(self).interfaces@ == old(self).interfaces@.push((interface, target)),
            final(self).bindings@ == old(self).bindings@,
    {
        self.interfaces.push((interface, target));
    }

    /// Resolve a `(binding, namespace)` pair to its configured target; a
    /// pair that was never wired is a fatal configuration error.
    pub fn identify_by_binding(&self, binding: &String, namespace: &String) -> (r: Result<
        TargetEntity,
        BusError,
    >)
        ensures
            match r {
                Ok(t) => self.route_of(binding@, namespace@) == Some(t@),
                Err(e) => e == BusError::UnknownTarget && self.route_of(
                    binding@,
                    namespace@,
                ) is None,
            },
    {
        let mut i: usize = 0;
        proof {
            assert(self.bindings@.skip(0) =~= self.bindings@);
        }
        while i < self.bindings.len()
            invariant
                i <= self.bindings.len(),
                binding_find(self.bindings@, binding@, namespace@) == binding_find(
                    self.bindings@.skip(i as int),
                    binding@,
                    namespace@,
                ),
            decreases self.bindings.len() - i,
        {
            let e = &self.bindings[i];
            if e.0 == *binding && e.1 == *namespace {
                return Ok(e.2.duplicate());
            }
            proof {
                assert(self.bindings@.skip(i as int).skip(1) =~= self.bindings@.skip(
                    i as int + 1,
                ));
            }
            i += 1;
        }
        Err(BusError::UnknownTarget)
    }

    /// Resolve an interface descriptor to its configured target, or `None`
    /// if no link or peer serves that interface; `None` is not an error,
    /// the caller falls back to its interface-default resolution.
    pub fn identify_by_interface(&self, interface: &TargetInterface) -> (r: Option<TargetEntity>)
        ensures
            match r {
                Some(t) => self.interface_route(interface@) == Some(t@),
                None => self.interface_route(interface@) is None,
            },
    {
        let mut i: usize = 0;
        proof {
            assert(self.interfaces@.skip(0) =~= self.interfaces@);
        }
        while i < self.interfaces.len()
            invariant
                i <= self.interfaces.len(),
                interface_find(self.interfaces@, interface@) == interface_find(
                    self.interfaces@.skip(i as int),
                    interface@,
                ),
            decreases self.interfaces.len() - i,
        {
            let e = &self.interfaces[i];
            if same_interface(&e.0, interface) {
                return Some(e.1.duplicate());
            }
            proof {
                assert(self.interfaces@.skip(i as int).skip(1) =~= self.interfaces@.skip(
                    i as int + 1,
                ));
            }
            i += 1;
        }
        None
    }

    /// Executable twin of [`RoutingConfig::serves`].
    pub fn serves_interface(&self, target: &TargetEntity, interface: &TargetInterface) -> (r:
        bool)
        ensures
            r == self.serves(target@, interface@),
    {
        match self.identify_by_interface(interface) {
            Some(t) => {
                if same_target(&t, target) {
                    return true;
                }
            },
            None => {},
        }
        let name = interface.binding_of();
        let mut i: usize = 0;
        while i < self.bindings.len()
            invariant
                i <= self.bindings.len(),
                name@ == spec_binding_of(interface@),
                forall|j: int| #![auto]
                    0 <= j < i ==> !(self.bindings@[j].0@ == spec_binding_of(interface@)
                        && self.bindings@[j].2@ == target@),
            decreases self.bindings.len() - i,
        {
            let e = &self.bindings[i];
            if e.0 == name && same_target(&e.2, target) {
                return true;
            }
            i += 1;
        }
        false
    }

    /// Validate, before a batch of calls begins, that `target` is
    /// configured to serve every interface the caller intends to use; any
    /// other combination is fatally rejected.  Nothing is silently
    /// redirected to a capability the operator never linked.
    pub fn set_target(&self, target: &TargetEntity, interfaces: &Vec<TargetInterface>) -> (r:
        Result<(), BusError>)
        ensures
            match r {
                Ok(u) => forall|j: int| #![auto]
                    0 <= j < interfaces@.len() ==> self.serves(target@, interfaces@[j]@),
                Err(e) => e == BusError::TargetRejected && exists|j: int| #![auto]
                    0 <= j < interfaces@.len() && !self.serves(target@, interfaces@[j]@),
            },
    {
        let mut i: usize = 0;
        while i < interfaces.len()
            invariant
                i <= interfaces.len(),
                forall|j: int| #![auto] 0 <= j < i ==> self.serves(target@, interfaces@[j]@),
            decreases interfaces.len() - i,
        {
            if !self.serves_interface(target, &interfaces[i]) {
                return Err(BusError::TargetRejected);
            }
            i += 1;
        }
        Ok(())
    }
}

} // verus!
