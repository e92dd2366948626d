//! What the loader reads in the leaf of a chain: when it expires and which
//! names it covers.

use vstd::prelude::*;
use vstd::utf8::encode_utf8;

verus! {

/// One entry of a certificate's subject alternative names.
#[derive(Debug)]
pub enum SanName {
    /// A DNS name.
    Dns(String),
    /// An entry of another kind: an address, a URI, a mail name and so on.
    Other,
}

impl View for SanName {
    type V = Option<Seq<char>>;

    open spec fn view(&self) -> Option<Seq<char>> {
        match self {
            SanName::Dns(name) => Some(name@),
            SanName::Other => None,
        }
    }
}

/// What the loader reads in a leaf.
#[derive(Debug)]
pub struct Leaf {
    /// The end of the certificate's validity, in seconds since 1970.
    pub not_after: i64,
    /// Its subject alternative names, in their order; none where the
    /// certificate has no such extension.
    pub names: Vec<SanName>,
}

/// A leaf as plain mathematics.
pub struct LeafView {
    pub not_after: i64,
    pub names: Seq<Option<Seq<char>>>,
}

impl View for Leaf {
    type V = LeafView;

    open spec fn view(&self) -> LeafView {
        LeafView { not_after: self.not_after, names: self.names@.map_values(|n: SanName| n@) }
    }
}

/// What an X.509 parser reads in a certificate in DER: `None` where it is no
/// certificate, or where its subject alternative names cannot be told.
pub uninterp spec fn x509_leaf(der: Seq<u8>) -> Option<LeafView>;

/// The outcome of reading a leaf as plain mathematics.
pub open spec fn leaf_view(leaf: core::result::Result<Leaf, String>) -> Option<LeafView> {
    match leaf {
        Ok(l) => Some(l@),
        Err(_) => None,
    }
}

/// `x509_parser::parse_x509_certificate`, then of the certificate
/// `validity().not_after.timestamp()` and `subject_alternative_name()`, whose
/// entries are handed out one for one. An error of the parser, or of the
/// search for the extension, comes back as its text.
#[verifier::external_body]
pub(crate) fn read_leaf(der: &[u8]) -> (leaf: core::result::Result<Leaf, String>)
    ensures
        leaf_view(leaf) == x509_leaf(der@),
{
    let (_, cert) = x509_parser::parse_x509_certificate(der).map_err(|e| format!("{e:?}"))?;
    let san = cert.subject_alternative_name().map_err(|e| format!("{e:?}"))?;
    let names = san.iter().flat_map(|ext| ext.value.general_names.iter()).map(
        |name| match name {
            x509_parser::extensions::GeneralName::DNSName(d) => SanName::Dns(d.to_string()),
            _ => SanName::Other,
        },
    ).collect();
    Ok(Leaf { not_after: cert.validity().not_after.timestamp(), names })
}

/// The DNS names among the entries, in their order.
pub open spec fn dns_names(names: Seq<Option<Seq<char>>>) -> Seq<Seq<char>>
    decreases names.len(),
{
    if names.len() == 0 {
        Seq::empty()
    } else {
        match names.last() {
            Some(name) => dns_names(names.drop_last()).push(name),
            None => dns_names(names.drop_last()),
        }
    }
}

/// The length of a name in bytes.
pub open spec fn byte_len(name: Seq<char>) -> nat {
    encode_utf8(name).len()
}

/// `i` is the place of the shortest name, and of the first of them where
/// several are as short.
pub open spec fn first_shortest(names: Seq<Seq<char>>, i: int) -> bool {
    &&& 0 <= i < names.len()
    &&& forall|j: int| 0 <= j < names.len() ==> byte_len(names[i]) <= byte_len(#[trigger] names[j])
    &&& forall|j: int| 0 <= j < i ==> byte_len(names[i]) < byte_len(#[trigger] names[j])
}

/// The shortest of the names, as `first_shortest` picks it; `None` where there
/// is no name.
pub open spec fn shortest_name(names: Seq<Seq<char>>) -> Option<Seq<char>> {
    if names.len() == 0 {
        None
    } else {
        Some(names[choose|i: int| first_shortest(names, i)])
    }
}

/// The name under which a leaf is cached: the shortest of its DNS names.
pub open spec fn cache_key(leaf: LeafView) -> Option<Seq<char>> {
    shortest_name(dns_names(leaf.names))
}

/// The day on which a leaf expires: the whole days between 1970 and the end
/// of its validity, counted towards 1970 for an end before it.
pub open spec fn expiry_day(leaf: LeafView) -> i64 {
    if leaf.not_after >= 0 {
        (leaf.not_after / 86400) as i64
    } else {
        (-((-leaf.not_after) / 86400)) as i64
    }
}

/// The views of a list of names.
pub open spec fn name_views(names: Seq<String>) -> Seq<Seq<char>> {
    names.map_values(|s: String| s@)
}

/// Picks the DNS names out of the entries.
pub fn dns_of(names: &Vec<SanName>) -> (dns: Vec<String>)
    ensures
        name_views(dns@) == dns_names(names@.map_values(|n: SanName| n@)),
{
    let ghost all = names@.map_values(|n: SanName| n@);
    let mut dns: Vec<String> = Vec::new();
    let mut i: usize = 0;
    assert(all.subrange(0, 0) == Seq::<Option<Seq<char>>>::empty());
    assert(name_views(dns@) == Seq::<Seq<char>>::empty());
    while i < names.len()
        invariant
            i <= names@.len(),
            all == names@.map_values(|n: SanName| n@),
            name_views(dns@) == dns_names(all.subrange(0, i as int)),
        decreases names@.len() - i,
    {
        let ghost before = dns@;
        proof {
            let next = all.subrange(0, i + 1);
            assert(next.drop_last() == all.subrange(0, i as int));
            assert(next.last() == names@[i as int]@);
        }
        match &names[i] {
            SanName::Dns(name) => {
                dns.push(name.clone());
                assert(name_views(dns@) == name_views(before).push(name@));
            },
            SanName::Other => {},
        }
        i += 1;
    }
    assert(all.subrange(0, i as int) == all);
    dns
}

/// There is exactly one place that `first_shortest` picks.
pub proof fn lemma_first_shortest_unique(names: Seq<Seq<char>>, i: int, j: int)
    requires
        first_shortest(names, i),
        first_shortest(names, j),
    ensures
        i == j,
{
    if i < j {
        assert(byte_len(names[j]) < byte_len(names[i]));
        assert(byte_len(names[i]) <= byte_len(names[j]));
    } else if j < i {
        assert(byte_len(names[i]) < byte_len(names[j]));
        assert(byte_len(names[j]) <= byte_len(names[i]));
    }
}

/// Finds the shortest of the names, counted in bytes, and the first of them
/// where several are as short.
pub fn shortest(names: &Vec<String>) -> (at: Option<usize>)
    ensures
        at is None <==> names@.len() == 0,
        at matches Some(i) ==> first_shortest(name_views(names@), i as int),
        at matches Some(i) ==> shortest_name(name_views(names@)) == Some(names@[i as int]@),
        at is None ==> shortest_name(name_views(names@)) is None,
{
    if names.len() == 0 {
        return None;
    }
    let ghost views = name_views(names@);
    let mut best: usize = 0;
    let mut i: usize = 1;
    while i < names.len()
        invariant
            1 <= i <= names@.len(),
            views == name_views(names@),
            best < i,
            forall|j: int|
                0 <= j < i ==> byte_len(views[best as int]) <= byte_len(#[trigger] views[j]),
            forall|j: int|
                0 <= j < best ==> byte_len(views[best as int]) < byte_len(#[trigger] views[j]),
        decreases names@.len() - i,
    {
        assert(views[i as int] == names@[i as int]@);
        assert(views[best as int] == names@[best as int]@);
        if names[i].as_str().as_bytes().len() < names[best].as_str().as_bytes().len() {
            best = i;
        }
        i += 1;
    }
    proof {
        assert(first_shortest(views, best as int));
        let picked = choose|k: int| first_shortest(views, k);
        lemma_first_shortest_unique(views, picked, best as int);
    }
    Some(best)
}

/// Computes the day on which a leaf expires.
pub fn day_of(leaf: &Leaf) -> (day: i64)
    ensures
        day == expiry_day(leaf@),
{
    leaf.not_after / 86400
}

} // verus!
