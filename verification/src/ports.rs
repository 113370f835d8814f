//! Which MIDI port and which audio device to open, out of those that are there.

use vstd::prelude::*;
use vstd::utf8::encode_utf8;

verus! {

/// Why no MIDI port could be chosen.
#[derive(Clone, Copy, Debug, PartialEq, Eq)]
pub enum PortError {
    /// No port's name begins with the name asked for.
    NoPortNamed,
    /// There are not as many ports as the index asked for.
    IndexOutOfRange,
    /// There is no port at all.
    NoPorts,
}

/// Which audio device to open.
#[derive(Clone, Copy, Debug, PartialEq, Eq)]
pub enum DeviceChoice {
    /// The host's default device.
    Default,
    /// The device at this place in the list.
    Listed(usize),
    /// No device has the name asked for.
    Missing,
}

/// Whether `name` begins with `prefix`, byte for byte.
pub open spec fn begins_with(name: Seq<char>, prefix: Seq<char>) -> bool {
    let name_bytes = encode_utf8(name);
    let prefix_bytes = encode_utf8(prefix);
    prefix_bytes.len() <= name_bytes.len() && name_bytes.subrange(0, prefix_bytes.len() as int)
        == prefix_bytes
}

/// Whether port `i` answers to `wanted`: its name could be read, and begins
/// with `wanted`.
pub open spec fn port_matches(names: Seq<Option<String>>, wanted: Seq<char>, i: int) -> bool {
    0 <= i < names.len() && names[i] is Some && begins_with(names[i]->0@, wanted)
}

/// Whether device `i` is the one called `wanted`.
pub open spec fn device_matches(names: Seq<Option<String>>, wanted: Seq<char>, i: int) -> bool {
    0 <= i < names.len() && names[i] is Some && names[i]->0@ == wanted
}

/// The port to read from. A name that is asked for wins: the first port
/// whose name begins with it. Without a name an index that is asked for is
/// taken as it is. Without either it is the first port.
pub open spec fn port_chosen(
    names: Seq<Option<String>>,
    wanted: Option<String>,
    index: Option<usize>,
    choice: Result<usize, PortError>,
) -> bool {
    match wanted {
        Some(name) => match choice {
            Ok(i) => port_matches(names, name@, i as int) && forall|j: int|
                0 <= j < i ==> !port_matches(names, name@, j),
            Err(error) => error == PortError::NoPortNamed && forall|j: int|
                0 <= j < names.len() ==> !port_matches(names, name@, j),
        },
        None => match index {
            Some(i) => if i < names.len() {
                choice == Ok::<usize, PortError>(i)
            } else {
                choice == Err::<usize, PortError>(PortError::IndexOutOfRange)
            },
            None => if names.len() > 0 {
                choice == Ok::<usize, PortError>(0)
            } else {
                choice == Err::<usize, PortError>(PortError::NoPorts)
            },
        },
    }
}

/// The device to play on: the host's default for the name "default", else
/// the first device that has the name.
pub open spec fn device_chosen(
    names: Seq<Option<String>>,
    wanted: Seq<char>,
    choice: DeviceChoice,
) -> bool {
    if wanted == "default"@ {
        choice == DeviceChoice::Default
    } else {
        match choice {
            DeviceChoice::Default => false,
            DeviceChoice::Listed(i) => device_matches(names, wanted, i as int) && forall|j: int|
                0 <= j < i ==> !device_matches(names, wanted, j),
            DeviceChoice::Missing => forall|j: int|
                0 <= j < names.len() ==> !device_matches(names, wanted, j),
        }
    }
}

/// Whether `name` begins with `prefix`.
pub fn has_prefix(name: &str, prefix: &str) -> (found: bool)
    ensures
        found == begins_with(name@, prefix@),
{
    let name_bytes = name.as_bytes();
    let prefix_bytes = prefix.as_bytes();
    if prefix_bytes.len() > name_bytes.len() {
        return false;
    }
    let mut i: usize = 0;
    while i < prefix_bytes.len()
        invariant
            i <= prefix_bytes@.len() <= name_bytes@.len(),
            name_bytes@ == encode_utf8(name@),
            prefix_bytes@ == encode_utf8(prefix@),
            forall|j: int| 0 <= j < i ==> name_bytes@[j] == prefix_bytes@[j],
        decreases prefix_bytes@.len() - i,
    {
        if name_bytes[i] != prefix_bytes[i] {
            proof {
                assert(name_bytes@.subrange(0, prefix_bytes@.len() as int)[i as int]
                    != prefix_bytes@[i as int]);
            }
            return false;
        }
        i = i + 1;
    }
    proof {
        assert(name_bytes@.subrange(0, prefix_bytes@.len() as int) =~= prefix_bytes@);
    }
    true
}

/// Chooses the MIDI port to read from, out of the ports' names in the order
/// the system lists them. A port whose name could not be read has none.
pub fn select_port(
    names: &Vec<Option<String>>,
    wanted: &Option<String>,
    index: Option<usize>,
) -> (choice: Result<usize, PortError>)
    ensures
        port_chosen(names@, *wanted, index, choice),
{
    match wanted {
        Some(name) => {
            let mut i: usize = 0;
            while i < names.len()
                invariant
                    i <= names@.len(),
                    *wanted == Some(*name),
                    forall|j: int| 0 <= j < i ==> !port_matches(names@, name@, j),
                decreases names@.len() - i,
            {
                let found: bool = match &names[i] {
                    Some(port_name) => has_prefix(port_name.as_str(), name.as_str()),
                    None => false,
                };
                if found {
                    return Ok(i);
                }
                i = i + 1;
            }
            Err(PortError::NoPortNamed)
        },
        None => match index {
            Some(i) => if i < names.len() {
                Ok(i)
            } else {
                Err(PortError::IndexOutOfRange)
            },
            None => if names.len() > 0 {
                Ok(0)
            } else {
                Err(PortError::NoPorts)
            },
        },
    }
}

/// Chooses the audio device to play on, out of the devices' names in the
/// order the host lists them. A device whose name could not be read has none.
pub fn select_device(names: &Vec<Option<String>>, wanted: &String) -> (choice: DeviceChoice)
    ensures
        device_chosen(names@, wanted@, choice),
{
    let default_name: String = "default".to_owned();
    if *wanted == default_name {
        return DeviceChoice::Default;
    }
    let mut i: usize = 0;
    while i < names.len()
        invariant
            i <= names@.len(),
            wanted@ != "default"@,
            forall|j: int| 0 <= j < i ==> !device_matches(names@, wanted@, j),
        decreases names@.len() - i,
    {
        let found: bool = match &names[i] {
            Some(device_name) => *device_name == *wanted,
            None => false,
        };
        if found {
            return DeviceChoice::Listed(i);
        }
        i = i + 1;
    }
    DeviceChoice::Missing
}

} // verus!
