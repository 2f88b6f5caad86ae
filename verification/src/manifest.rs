//! What the supervisor knows of an application: its identity, the network
//! interfaces it declares, and the secret that belongs to each interface.

use vstd::prelude::*;
use torut::onion::TorSecretKeyV3;
use crate::error::{Error, ErrorKind, ErrorView};
use vstd::string::StringExecFns;

verus! {

pub type PackageId = String;

pub type Version = String;

pub type InterfaceId = String;

/// The mathematical content of a [`Manifest`].
pub struct ManifestView {
    pub id: Seq<char>,
    pub version: Seq<char>,
    pub interfaces: Seq<Seq<char>>,
}

/// The part of a package manifest that supervision depends on.
#[derive(Debug, PartialEq, Eq)]
pub struct Manifest {
    pub id: PackageId,
    pub version: Version,
    /// The declared interfaces, in the order in which they are published.
    pub interfaces: Vec<InterfaceId>,
}

impl View for Manifest {
    type V = ManifestView;

    open spec fn view(&self) -> ManifestView {
        ManifestView {
            id: self.id@,
            version: self.version@,
            interfaces: self.interfaces.deep_view(),
        }
    }
}

impl DeepView for Manifest {
    type V = ManifestView;

    open spec fn deep_view(&self) -> ManifestView {
        self@
    }
}

impl ManifestView {
    /// The application identity: package id and version.
    pub open spec fn identity(self) -> (Seq<char>, Seq<char>) {
        (self.id, self.version)
    }
}

/// The mathematical content of an [`InterfaceSecret`].
pub struct SecretView {
    pub interface: Seq<char>,
    pub key: TorSecretKeyV3,
}

/// The secret key under which one interface is published.
#[derive(Debug, PartialEq, Eq)]
pub struct InterfaceSecret {
    pub interface: InterfaceId,
    pub key: TorSecretKeyV3,
}

impl View for InterfaceSecret {
    type V = SecretView;

    open spec fn view(&self) -> SecretView {
        SecretView { interface: self.interface@, key: self.key }
    }
}

impl DeepView for InterfaceSecret {
    type V = SecretView;

    open spec fn deep_view(&self) -> SecretView {
        self@
    }
}

/// The key of the first secret that names `interface`, if there is one.
pub open spec fn key_of(secrets: Seq<SecretView>, interface: Seq<char>) -> Option<TorSecretKeyV3>
    decreases secrets.len(),
{
    if secrets.len() == 0 {
        None
    } else if secrets[0].interface == interface {
        Some(secrets[0].key)
    } else {
        key_of(secrets.drop_first(), interface)
    }
}

/// The first declared interface that has no secret, if there is one.
pub open spec fn unbound(interfaces: Seq<Seq<char>>, secrets: Seq<SecretView>) -> Option<Seq<char>>
    decreases interfaces.len(),
{
    if interfaces.len() == 0 {
        None
    } else if key_of(secrets, interfaces[0]) is None {
        Some(interfaces[0])
    } else {
        unbound(interfaces.drop_first(), secrets)
    }
}

/// Each declared interface with its key, in declaration order.
pub open spec fn bindings(interfaces: Seq<Seq<char>>, secrets: Seq<SecretView>) -> Seq<SecretView> {
    Seq::new(
        interfaces.len(),
        |i: int| SecretView { interface: interfaces[i], key: key_of(secrets, interfaces[i])->0 },
    )
}

/// The error for a declared interface without a secret.
pub open spec fn missing_key(interface: Seq<char>) -> ErrorView {
    ErrorView { kind: ErrorKind::Tor, message: "interface "@ + interface + " missing key"@ }
}

/// The credentials for publishing every declared interface, or the error for
/// the first interface that has none.
pub open spec fn bound(interfaces: Seq<Seq<char>>, secrets: Seq<SecretView>) -> Result<
    Seq<SecretView>,
    ErrorView,
> {
    match unbound(interfaces, secrets) {
        Some(interface) => Err(missing_key(interface)),
        None => Ok(bindings(interfaces, secrets)),
    }
}

impl Manifest {
    /// The application identity: package id and version.
    pub fn identity(&self) -> (id: (PackageId, Version))
        ensures
            id@ == self@.identity(),
    {
        (self.id.clone(), self.version.clone())
    }

    /// A copy that later changes to `self` cannot reach.
    pub fn snapshot(&self) -> (copy: Manifest)
        ensures
            copy@ == self@,
    {
        Manifest {
            id: self.id.clone(),
            version: self.version.clone(),
            interfaces: copy_names(&self.interfaces),
        }
    }
}

/// A copy of a list of names.
pub fn copy_names(names: &Vec<String>) -> (copy: Vec<String>)
    ensures
        copy.deep_view() == names.deep_view(),
{
    let mut copy: Vec<String> = Vec::new();
    let mut i: usize = 0;
    while i < names.len()
        invariant
            i <= names.len(),
            copy.len() == i,
            forall|j: int| 0 <= j < i ==> copy[j]@ == names[j]@,
        decreases names.len() - i,
    {
        copy.push(names[i].clone());
        i += 1;
    }
    copy
}

/// A copy of a list of secrets.
pub fn copy_secrets(secrets: &Vec<InterfaceSecret>) -> (copy: Vec<InterfaceSecret>)
    ensures
        copy.deep_view() == secrets.deep_view(),
{
    let mut copy: Vec<InterfaceSecret> = Vec::new();
    let mut i: usize = 0;
    while i < secrets.len()
        invariant
            i <= secrets.len(),
            copy.len() == i,
            forall|j: int| 0 <= j < i ==> copy[j]@ == secrets[j]@,
        decreases secrets.len() - i,
    {
        let secret = &secrets[i];
        copy.push(InterfaceSecret { interface: secret.interface.clone(), key: secret.key.clone() });
        i += 1;
    }
    copy
}

/// Looks up the key that belongs to `interface`.
pub fn find_key(secrets: &Vec<InterfaceSecret>, interface: &InterfaceId) -> (key: Option<
    TorSecretKeyV3,
>)
    ensures
        key == key_of(secrets.deep_view(), interface@),
{
    let ghost all = secrets.deep_view();
    let mut i: usize = 0;
    assert(all.skip(0) =~= all);
    while i < secrets.len()
        invariant
            i <= secrets.len(),
            all == secrets.deep_view(),
            key_of(all, interface@) == key_of(all.skip(i as int), interface@),
        decreases secrets.len() - i,
    {
        assert(all.skip(i as int).drop_first() =~= all.skip(i + 1));
        if secrets[i].interface == *interface {
            return Some(secrets[i].key.clone());
        }
        i += 1;
    }
    None
}

/// Pairs every declared interface with its key.
///
/// Fails on the first interface that has no secret, so that a caller never
/// holds credentials for only some of the interfaces.
pub fn bind_interfaces(interfaces: &Vec<InterfaceId>, secrets: &Vec<InterfaceSecret>) -> (bound:
    Result<Vec<InterfaceSecret>, Error>)
    ensures
        match bound {
            Ok(list) => self::bound(interfaces.deep_view(), secrets.deep_view()) == Ok::<
                Seq<SecretView>,
                ErrorView,
            >(list.deep_view()),
            Err(error) => self::bound(interfaces.deep_view(), secrets.deep_view()) == Err::<
                Seq<SecretView>,
                ErrorView,
            >(error@),
        },
{
    let ghost names = interfaces.deep_view();
    let ghost keys = secrets.deep_view();
    let mut list: Vec<InterfaceSecret> = Vec::new();
    let mut i: usize = 0;
    assert(names.skip(0) =~= names);
    while i < interfaces.len()
        invariant
            i <= interfaces.len(),
            names == interfaces.deep_view(),
            keys == secrets.deep_view(),
            list.len() == i,
            unbound(names, keys) == unbound(names.skip(i as int), keys),
            forall|j: int| 0 <= j < i ==> #[trigger] list[j]@ == bindings(names, keys)[j],
        decreases interfaces.len() - i,
    {
        assert(names.skip(i as int).drop_first() =~= names.skip(i + 1));
        match find_key(secrets, &interfaces[i]) {
            Some(key) => {
                list.push(InterfaceSecret { interface: interfaces[i].clone(), key });
            },
            None => {
                let mut message = String::from_str("interface ");
                message.append(interfaces[i].as_str());
                message.append(" missing key");
                return Err(Error { kind: ErrorKind::Tor, message });
            },
        }
        i += 1;
    }
    assert(list.deep_view() =~= bindings(names, keys));
    Ok(list)
}

} // verus!
