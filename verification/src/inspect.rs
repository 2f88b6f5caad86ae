//! What an inspection of the application's container reports, and how the
//! container's address is read from it.

use vstd::prelude::*;
use vstd::string::StringExecFns;
use crate::address::{dotted_quad, parse_ipv4, Ipv4Address};
use crate::error::{Error, ErrorKind, ErrorView};

verus! {

/// The mathematical content of a [`Network`].
pub struct NetworkView {
    pub name: Seq<char>,
    pub ip_address: Option<Seq<char>>,
}

/// One network that a container is attached to.
#[derive(Debug, PartialEq, Eq)]
pub struct Network {
    pub name: String,
    /// The container's address on this network, as the engine prints it.
    pub ip_address: Option<String>,
}

impl View for Network {
    type V = NetworkView;

    open spec fn view(&self) -> NetworkView {
        NetworkView {
            name: self.name@,
            ip_address: match self.ip_address {
                Some(text) => Some(text@),
                None => None,
            },
        }
    }
}

impl DeepView for Network {
    type V = NetworkView;

    open spec fn deep_view(&self) -> NetworkView {
        self@
    }
}

/// The mathematical content of an [`Inspection`].
pub enum InspectionView {
    NotFound,
    Failed(ErrorView),
    Found(Option<Seq<NetworkView>>),
}

/// The answer of the container engine to one inspection.
#[derive(Debug, PartialEq, Eq)]
pub enum Inspection {
    /// The container does not exist yet. This is no error: it is not ready.
    NotFound,
    /// The engine failed for any other reason.
    Failed(Error),
    /// The container exists, with these networks if the engine listed any.
    Found(Option<Vec<Network>>),
}

impl View for Inspection {
    type V = InspectionView;

    open spec fn view(&self) -> InspectionView {
        match *self {
            Inspection::NotFound => InspectionView::NotFound,
            Inspection::Failed(error) => InspectionView::Failed(error@),
            Inspection::Found(networks) => InspectionView::Found(
                match networks {
                    Some(list) => Some(list.deep_view()),
                    None => None,
                },
            ),
        }
    }
}

/// The name of the network on which applications are reached.
pub open spec fn host_network() -> Seq<char> {
    "start9"@
}

/// The address text of the first network with the given name, if there is
/// such a network and it has an address.
pub open spec fn address_text(networks: Seq<NetworkView>, name: Seq<char>) -> Option<Seq<char>>
    decreases networks.len(),
{
    if networks.len() == 0 {
        None
    } else if networks[0].name == name {
        networks[0].ip_address
    } else {
        address_text(networks.drop_first(), name)
    }
}

/// The error for a container without an address on the host network.
pub open spec fn no_address() -> ErrorView {
    ErrorView { kind: ErrorKind::Docker, message: "inspect did not return ip"@ }
}

/// The error for an address that is no dotted quad.
pub open spec fn bad_address() -> ErrorView {
    ErrorView { kind: ErrorKind::Docker, message: "invalid IPv4 address syntax"@ }
}

/// The container's address on the host network, or the error that ends the
/// session: no network list, no host network in it, no address on it, or an
/// address that cannot be read.
pub open spec fn resolved(found: Option<Seq<NetworkView>>) -> Result<Ipv4Address, ErrorView> {
    match found {
        None => Err(no_address()),
        Some(networks) => match address_text(networks, host_network()) {
            None => Err(no_address()),
            Some(text) => match dotted_quad(text) {
                Some(address) => Ok(address),
                None => Err(bad_address()),
            },
        },
    }
}

/// Finds the address text of the first network called `name`.
fn find_address<'a>(networks: &'a Vec<Network>, name: &String) -> (text: Option<&'a String>)
    ensures
        match text {
            Some(text) => address_text(networks.deep_view(), name@) == Some(text@),
            None => address_text(networks.deep_view(), name@) is None,
        },
{
    let ghost all = networks.deep_view();
    let mut i: usize = 0;
    assert(all.skip(0) =~= all);
    while i < networks.len()
        invariant
            i <= networks.len(),
            all == networks.deep_view(),
            address_text(all, name@) == address_text(all.skip(i as int), name@),
        decreases networks.len() - i,
    {
        assert(all.skip(i as int).drop_first() =~= all.skip(i + 1));
        if networks[i].name == *name {
            return networks[i].ip_address.as_ref();
        }
        i += 1;
    }
    None
}

/// Reads the container's address on the host network from what an inspection
/// found.
pub fn resolve_address(found: &Option<Vec<Network>>) -> (address: Result<Ipv4Address, Error>)
    ensures
        match address {
            Ok(address) => resolved(
                match *found {
                    Some(list) => Some(list.deep_view()),
                    None => None,
                },
            ) == Ok::<Ipv4Address, ErrorView>(address),
            Err(error) => resolved(
                match *found {
                    Some(list) => Some(list.deep_view()),
                    None => None,
                },
            ) == Err::<Ipv4Address, ErrorView>(error@),
        },
{
    match found {
        None => Err(Error::new(ErrorKind::Docker, "inspect did not return ip")),
        Some(networks) => {
            let name = String::from_str("start9");
            match find_address(networks, &name) {
                None => Err(Error::new(ErrorKind::Docker, "inspect did not return ip")),
                Some(text) => match parse_ipv4(text.as_str()) {
                    Some(address) => Ok(address),
                    None => Err(Error::new(ErrorKind::Docker, "invalid IPv4 address syntax")),
                },
            }
        },
    }
}

} // verus!
