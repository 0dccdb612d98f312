//! What is known of an endpoint besides its address.

use vstd::prelude::*;
use crate::addr::{pb_to_sock_addr, decoded, SocketAddr, TcpAddress};

verus! {

/// One metric label.
#[derive(Debug)]
pub struct Label {
    pub key: String,
    pub value: String,
}

impl View for Label {
    type V = (Seq<char>, Seq<char>);

    open spec fn view(&self) -> (Seq<char>, Seq<char>) {
        (self.key@, self.value@)
    }
}

impl Clone for Label {
    fn clone(&self) -> (copy: Label)
        ensures
            copy@ == self@,
    {
        Label { key: self.key.clone(), value: self.value.clone() }
    }
}

impl Label {
    pub fn new(key: String, value: String) -> (label: Label)
        ensures
            label@ == (key@, value@),
    {
        Label { key, value }
    }

    /// Whether two labels have the same key and the same value.
    pub fn same(&self, other: &Label) -> (b: bool)
        ensures
            b == (self@ == other@),
    {
        self.key == other.key && self.value == other.value
    }
}

/// The labels of a list, each by its view.
pub open spec fn label_views(labels: Seq<Label>) -> Seq<(Seq<char>, Seq<char>)> {
    labels.map_values(|l: Label| l@)
}

/// Whether some label of the list has this key.
pub open spec fn has_label(labels: Seq<(Seq<char>, Seq<char>)>, key: Seq<char>) -> bool {
    exists|i: int| 0 <= i < labels.len() && (#[trigger] labels[i]).0 == key
}

/// The labels of `shared` whose key `own` does not set, in their order.
pub open spec fn not_overridden(
    shared: Seq<(Seq<char>, Seq<char>)>,
    own: Seq<(Seq<char>, Seq<char>)>,
) -> Seq<(Seq<char>, Seq<char>)>
    decreases shared.len(),
{
    if shared.len() == 0 {
        shared
    } else if has_label(own, shared.last().0) {
        not_overridden(shared.drop_last(), own)
    } else {
        not_overridden(shared.drop_last(), own).push(shared.last())
    }
}

/// An address's own labels laid over the labels that its whole set shares:
/// the shared labels that the address does not set itself, then its own.
pub open spec fn merged(
    shared: Seq<(Seq<char>, Seq<char>)>,
    own: Seq<(Seq<char>, Seq<char>)>,
) -> Seq<(Seq<char>, Seq<char>)> {
    not_overridden(shared, own) + own
}

proof fn label_views_push(labels: Seq<Label>, label: Label)
    ensures
        label_views(labels.push(label)) == label_views(labels).push(label@),
{
    assert(label_views(labels.push(label)) =~= label_views(labels).push(label@));
}

proof fn label_views_take(labels: Seq<Label>, i: int)
    requires
        0 <= i < labels.len(),
    ensures
        label_views(labels).take(i + 1) == label_views(labels).take(i).push(labels[i]@),
{
    assert(label_views(labels).take(i + 1) =~= label_views(labels).take(i).push(labels[i]@));
}

fn copy_labels(labels: &Vec<Label>) -> (copy: Vec<Label>)
    ensures
        label_views(copy@) == label_views(labels@),
{
    let mut copy: Vec<Label> = Vec::new();
    let mut i: usize = 0;
    while i < labels.len()
        invariant
            i <= labels.len(),
            label_views(copy@) == label_views(labels@).take(i as int),
        decreases labels.len() - i,
    {
        let ghost before = copy@;
        let label = labels[i].clone();
        copy.push(label);
        proof {
            label_views_push(before, label);
            label_views_take(labels@, i as int);
        }
        i += 1;
    }
    proof {
        assert(label_views(labels@).take(i as int) == label_views(labels@));
    }
    copy
}

fn labels_have_key(labels: &Vec<Label>, key: &String) -> (b: bool)
    ensures
        b == has_label(label_views(labels@), key@),
{
    let mut i: usize = 0;
    while i < labels.len()
        invariant
            i <= labels.len(),
            forall|j: int| 0 <= j < i ==> (#[trigger] label_views(labels@)[j]).0 != key@,
        decreases labels.len() - i,
    {
        if labels[i].key == *key {
            assert(label_views(labels@)[i as int].0 == key@);
            return true;
        }
        i += 1;
    }
    false
}

/// Lays an address's own labels over the labels that its set shares.
pub fn merge_labels(shared: &Vec<Label>, own: &Vec<Label>) -> (all: Vec<Label>)
    ensures
        label_views(all@) == merged(label_views(shared@), label_views(own@)),
{
    let mut all: Vec<Label> = Vec::new();
    let mut i: usize = 0;
    while i < shared.len()
        invariant
            i <= shared.len(),
            label_views(all@) == not_overridden(
                label_views(shared@).take(i as int),
                label_views(own@),
            ),
        decreases shared.len() - i,
    {
        proof {
            let next = label_views(shared@).take(i + 1);
            assert(next.drop_last() == label_views(shared@).take(i as int));
            assert(next.last() == shared@[i as int]@);
        }
        if !labels_have_key(own, &shared[i].key) {
            all.push(shared[i].clone());
            proof {
                assert(label_views(all@) =~= not_overridden(
                    label_views(shared@).take(i + 1),
                    label_views(own@),
                ));
            }
        }
        i += 1;
    }
    proof {
        assert(label_views(shared@).take(i as int) == label_views(shared@));
    }
    let mut j: usize = 0;
    while j < own.len()
        invariant
            j <= own.len(),
            label_views(all@) == not_overridden(label_views(shared@), label_views(own@))
                + label_views(own@).take(j as int),
        decreases own.len() - j,
    {
        let ghost before = all@;
        let label = own[j].clone();
        all.push(label);
        proof {
            label_views_push(before, label);
            label_views_take(own@, j as int);
            assert(label_views(all@) =~= not_overridden(label_views(shared@), label_views(own@))
                + label_views(own@).take(j + 1));
        }
        j += 1;
    }
    proof {
        assert(label_views(own@).take(j as int) == label_views(own@));
    }
    all
}

/// The metric labels of a destination: never empty.
#[derive(Debug)]
pub struct DstLabels {
    labels: Vec<Label>,
}

impl View for DstLabels {
    type V = Seq<(Seq<char>, Seq<char>)>;

    closed spec fn view(&self) -> Seq<(Seq<char>, Seq<char>)> {
        label_views(self.labels@)
    }
}

impl Clone for DstLabels {
    fn clone(&self) -> (copy: DstLabels)
        ensures
            copy@ == self@,
    {
        DstLabels { labels: copy_labels(&self.labels) }
    }
}

impl DstLabels {
    /// The labels as a destination's labels, or nothing where there is no
    /// label.
    pub fn new(labels: Vec<Label>) -> (made: Option<DstLabels>)
        ensures
            labels@.len() == 0 <==> made is None,
            made is Some ==> made->0@ == label_views(labels@),
    {
        if labels.len() == 0 {
            None
        } else {
            Some(DstLabels { labels })
        }
    }

    /// The labels, in their order.
    pub fn labels(&self) -> (all: &Vec<Label>)
        ensures
            label_views(all@) == self@,
    {
        &self.labels
    }

    /// Whether two sets of labels hold the same labels in the same order.
    pub fn same(&self, other: &DstLabels) -> (b: bool)
        ensures
            b == (self@ == other@),
    {
        if self.labels.len() != other.labels.len() {
            assert(self@.len() != other@.len());
            return false;
        }
        let mut i: usize = 0;
        while i < self.labels.len()
            invariant
                i <= self.labels.len(),
                self.labels.len() == other.labels.len(),
                forall|j: int| 0 <= j < i ==> #[trigger] self@[j] == other@[j],
            decreases self.labels.len() - i,
        {
            if !self.labels[i].same(&other.labels[i]) {
                assert(self@[i as int] != other@[i as int]);
                return false;
            }
            i += 1;
        }
        assert(self@ =~= other@);
        true
    }
}

/// The name by which a peer proves who it is over TLS.
#[derive(Debug)]
pub struct Identity {
    pub name: String,
}

impl View for Identity {
    type V = Seq<char>;

    open spec fn view(&self) -> Seq<char> {
        self.name@
    }
}

impl Clone for Identity {
    fn clone(&self) -> (copy: Identity)
        ensures
            copy@ == self@,
    {
        Identity { name: self.name.clone() }
    }
}

/// Why an endpoint has no TLS identity.
#[derive(Clone, Copy, Debug, PartialEq, Eq, Structural)]
pub enum ReasonForNoIdentity {
    /// TLS is switched off.
    Disabled,
    /// The traffic is not HTTP.
    NotHttp,
    /// Discovery named no identity for the endpoint.
    NotProvidedByServiceDiscovery,
}

/// A TLS identity, or the reason why there is none.
#[derive(Debug)]
pub enum TlsIdentity {
    Identified(Identity),
    Unidentified(ReasonForNoIdentity),
}

/// A TLS identity as a specification value.
pub ghost enum TlsIdentityView {
    Identified(Seq<char>),
    Unidentified(ReasonForNoIdentity),
}

impl View for TlsIdentity {
    type V = TlsIdentityView;

    open spec fn view(&self) -> TlsIdentityView {
        match self {
            TlsIdentity::Identified(id) => TlsIdentityView::Identified(id@),
            TlsIdentity::Unidentified(why) => TlsIdentityView::Unidentified(*why),
        }
    }
}

impl Clone for TlsIdentity {
    fn clone(&self) -> (copy: TlsIdentity)
        ensures
            copy@ == self@,
    {
        match self {
            TlsIdentity::Identified(id) => TlsIdentity::Identified(id.clone()),
            TlsIdentity::Unidentified(why) => TlsIdentity::Unidentified(*why),
        }
    }
}

impl TlsIdentity {
    pub fn is_some(&self) -> (b: bool)
        ensures
            b == (self@ is Identified),
    {
        match self {
            TlsIdentity::Identified(_) => true,
            TlsIdentity::Unidentified(_) => false,
        }
    }

    pub fn same(&self, other: &TlsIdentity) -> (b: bool)
        ensures
            b == (self@ == other@),
    {
        match (self, other) {
            (TlsIdentity::Identified(a), TlsIdentity::Identified(b)) => a.name == b.name,
            (TlsIdentity::Unidentified(a), TlsIdentity::Unidentified(b)) => *a == *b,
            _ => false,
        }
    }
}

/// Metadata describing an endpoint.
#[derive(Debug)]
pub struct Metadata {
    /// Metric labels describing the destination.
    dst_labels: Option<DstLabels>,
    /// How to verify TLS for the endpoint.
    tls_identity: TlsIdentity,
}

/// Metadata as a specification value.
pub ghost struct MetadataView {
    pub dst_labels: Option<Seq<(Seq<char>, Seq<char>)>>,
    pub tls_identity: TlsIdentityView,
}

/// The metadata of an endpoint of which nothing is known: no labels, and no
/// identity because discovery gave none.
pub open spec fn no_metadata_view() -> MetadataView {
    MetadataView {
        dst_labels: None,
        tls_identity: TlsIdentityView::Unidentified(
            ReasonForNoIdentity::NotProvidedByServiceDiscovery,
        ),
    }
}

impl View for Metadata {
    type V = MetadataView;

    closed spec fn view(&self) -> MetadataView {
        MetadataView {
            dst_labels: match self.dst_labels {
                Some(labels) => Some(labels@),
                None => None,
            },
            tls_identity: self.tls_identity@,
        }
    }
}

impl Clone for Metadata {
    fn clone(&self) -> (copy: Metadata)
        ensures
            copy@ == self@,
    {
        let dst_labels = match &self.dst_labels {
            Some(labels) => Some(labels.clone()),
            None => None,
        };
        Metadata { dst_labels, tls_identity: self.tls_identity.clone() }
    }
}

impl Metadata {
    /// Metadata for an endpoint of which nothing is known. Such an endpoint is
    /// taken not to support TLS.
    pub fn no_metadata() -> (meta: Metadata)
        ensures
            meta@ == no_metadata_view(),
    {
        Metadata {
            dst_labels: None,
            tls_identity: TlsIdentity::Unidentified(
                ReasonForNoIdentity::NotProvidedByServiceDiscovery,
            ),
        }
    }

    pub fn new(dst_labels: Option<DstLabels>, tls_identity: TlsIdentity) -> (meta: Metadata)
        ensures
            meta@.tls_identity == tls_identity@,
            dst_labels is None ==> meta@.dst_labels is None,
            dst_labels is Some ==> meta@.dst_labels == Some(dst_labels->0@),
    {
        Metadata { dst_labels, tls_identity }
    }

    /// The endpoint's labels, if it has any.
    pub fn dst_labels(&self) -> (labels: Option<&DstLabels>)
        ensures
            labels is None <==> self@.dst_labels is None,
            labels is Some ==> self@.dst_labels == Some(labels->0@),
    {
        self.dst_labels.as_ref()
    }

    pub fn tls_identity(&self) -> (id: &TlsIdentity)
        ensures
            id@ == self@.tls_identity,
    {
        &self.tls_identity
    }

    /// Whether two endpoints are described alike.
    pub fn same(&self, other: &Metadata) -> (b: bool)
        ensures
            b == (self@ == other@),
    {
        let labels_alike = match (&self.dst_labels, &other.dst_labels) {
            (Some(a), Some(b)) => a.same(b),
            (None, None) => true,
            _ => false,
        };
        labels_alike && self.tls_identity.same(&other.tls_identity)
    }
}

/// A concrete endpoint: an address and what is known of it.
#[derive(Debug)]
pub struct Endpoint {
    address: SocketAddr,
    metadata: Metadata,
}

impl View for Endpoint {
    type V = (SocketAddr, MetadataView);

    closed spec fn view(&self) -> (SocketAddr, MetadataView) {
        (self.address, self.metadata@)
    }
}

impl Clone for Endpoint {
    fn clone(&self) -> (copy: Endpoint)
        ensures
            copy@ == self@,
    {
        Endpoint { address: self.address, metadata: self.metadata.clone() }
    }
}

impl Endpoint {
    pub fn new(address: SocketAddr, metadata: Metadata) -> (ep: Endpoint)
        ensures
            ep@ == (address, metadata@),
    {
        Endpoint { address, metadata }
    }

    pub fn address(&self) -> (addr: SocketAddr)
        ensures
            addr == self@.0,
    {
        self.address
    }

    pub fn metadata(&self) -> (meta: &Metadata)
        ensures
            meta@ == self@.1,
    {
        &self.metadata
    }

    pub fn tls_identity(&self) -> (id: &TlsIdentity)
        ensures
            id@ == self@.1.tls_identity,
    {
        &self.metadata.tls_identity
    }
}

/// One address of an "addresses added" message, with its own labels.
#[derive(Debug)]
pub struct WeightedAddr {
    pub addr: Option<TcpAddress>,
    pub weight: u32,
    pub metric_labels: Vec<Label>,
    pub tls_identity: Option<Identity>,
}

/// The TLS identity that an address of a message carries.
pub open spec fn identity_of(given: Option<Identity>) -> TlsIdentityView {
    match given {
        Some(id) => TlsIdentityView::Identified(id@),
        None => TlsIdentityView::Unidentified(
            ReasonForNoIdentity::NotProvidedByServiceDiscovery,
        ),
    }
}

/// The labels of an address of a message: its own over those of its set.
pub open spec fn labels_of(
    shared: Seq<(Seq<char>, Seq<char>)>,
    own: Seq<(Seq<char>, Seq<char>)>,
) -> Option<Seq<(Seq<char>, Seq<char>)>> {
    if merged(shared, own).len() == 0 {
        None
    } else {
        Some(merged(shared, own))
    }
}

/// The endpoint that an address of a message stands for, if its address
/// decodes.
pub open spec fn addr_meta(pb: WeightedAddr, set_labels: Seq<Label>) -> Option<
    (SocketAddr, MetadataView),
> {
    match pb.addr {
        Some(tcp) => match decoded(tcp) {
            Some(addr) => Some(
                (
                    addr,
                    MetadataView {
                        dst_labels: labels_of(
                            label_views(set_labels),
                            label_views(pb.metric_labels@),
                        ),
                        tls_identity: identity_of(pb.tls_identity),
                    },
                ),
            ),
            None => None,
        },
        None => None,
    }
}

/// Makes a labelled endpoint of an address of a control-plane message. An
/// address that does not decode gives nothing.
pub fn pb_to_addr_meta(pb: &WeightedAddr, set_labels: &Vec<Label>) -> (made: Option<
    (SocketAddr, Metadata),
>)
    ensures
        made is Some <==> addr_meta(*pb, set_labels@) is Some,
        made is Some ==> ({
            let (addr, meta) = made->0;
            (addr, meta@) == addr_meta(*pb, set_labels@)->0
        }),
{
    let tcp = match pb.addr {
        Some(tcp) => tcp,
        None => {
            return None;
        },
    };
    let addr = match pb_to_sock_addr(tcp) {
        Some(addr) => addr,
        None => {
            return None;
        },
    };
    let labels = merge_labels(set_labels, &pb.metric_labels);
    let tls_identity = match &pb.tls_identity {
        Some(id) => TlsIdentity::Identified(id.clone()),
        None => TlsIdentity::Unidentified(ReasonForNoIdentity::NotProvidedByServiceDiscovery),
    };
    let meta = Metadata::new(DstLabels::new(labels), tls_identity);
    Some((addr, meta))
}

} // verus!
