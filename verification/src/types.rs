//! Data model: raw OS-provided entries, consolidated interface records,
//! host identity, and the error taxonomy, together with the ghost models
//! that the contracts are stated over.

use vstd::prelude::*;

verus! {

/// Bit that marks an interface as administratively "up" in the flag word of
/// a POSIX-style interface entry.
pub const IFF_UP_FLAG: u32 = 1;

/// Adapter-type tag for wired/Ethernet adapters in the adapter-list style
/// enumeration; only adapters of this type are considered there.
pub const ETHERNET_ADAPTER_TYPE: u32 = 6;

/// How a whole enumeration call can fail.
#[derive(Clone, Copy, Debug, PartialEq, Eq, Structural)]
pub enum DevInfoError {
    /// An underlying OS call returned a non-success status; carries the
    /// native error code where available (0 where none was reported).
    OsQueryFailed { code: i32 },
    /// A raw OS byte buffer that was expected to be valid text was not.
    EncodingFailed,
    /// The build targets a platform with no applicable OS facility.
    UnsupportedPlatform,
}

/// The address payload of one raw OS entry, already copied out of the
/// OS-defined structure into plain bytes.
pub enum RawAddress {
    /// Link-layer storage: a byte buffer and the number of leading header
    /// bytes that precede the 6 hardware-address bytes.
    Link { header_len: usize, data: Vec<u8> },
    /// A 32-bit IPv4 address; the most significant byte is the first octet
    /// of the dotted-decimal form.
    V4 { addr: u32 },
    /// The 16 bytes of an IPv6 address in network order.
    V6 { octets: Vec<u8> },
    /// Any other address family: contributes nothing.
    Other,
}

/// Ghost model of `RawAddress`.
pub ghost enum AddressModel {
    Link { header: int, data: Seq<u8> },
    V4 { addr: u32 },
    V6 { octets: Seq<u8> },
    Other,
}

impl View for RawAddress {
    type V = AddressModel;

    open spec fn view(&self) -> AddressModel {
        match self {
            RawAddress::Link { header_len, data } => AddressModel::Link {
                header: *header_len as int,
                data: data@,
            },
            RawAddress::V4 { addr } => AddressModel::V4 { addr: *addr },
            RawAddress::V6 { octets } => AddressModel::V6 { octets: octets@ },
            RawAddress::Other => AddressModel::Other,
        }
    }
}

/// One raw entry of the POSIX-style enumeration: one (interface,
/// address-family) occurrence, with the interface's flag word.
pub struct RawAddressEntry {
    pub name: String,
    pub flags: u32,
    pub address: RawAddress,
}

/// Ghost model of `RawAddressEntry`.
pub ghost struct EntryModel {
    pub name: Seq<char>,
    pub flags: u32,
    pub address: AddressModel,
}

impl View for RawAddressEntry {
    type V = EntryModel;

    open spec fn view(&self) -> EntryModel {
        EntryModel { name: self.name@, flags: self.flags, address: self.address@ }
    }
}

/// An interface entry is active when its flag word has the "up" bit set.
pub open spec fn is_active(e: EntryModel) -> bool {
    e.flags & IFF_UP_FLAG != 0
}

/// One node of the adapter-list style enumeration: one adapter already
/// carrying every address kind for that adapter.
pub struct AdapterEntry {
    pub name: String,
    pub if_type: u32,
    /// The adapter's IPv4 address in presentation form, as the OS hands it out.
    pub ip_address: String,
    /// The adapter's hardware-address bytes.
    pub hardware: Vec<u8>,
}

/// Ghost model of `AdapterEntry`.
pub ghost struct AdapterModel {
    pub name: Seq<char>,
    pub if_type: u32,
    pub ip_address: Seq<char>,
    pub hardware: Seq<u8>,
}

impl View for AdapterEntry {
    type V = AdapterModel;

    open spec fn view(&self) -> AdapterModel {
        AdapterModel {
            name: self.name@,
            if_type: self.if_type,
            ip_address: self.ip_address@,
            hardware: self.hardware@,
        }
    }
}

/// One network interface's consolidated addressing. Only interfaces that
/// were active at enumeration time are ever materialized.
pub struct InterfaceAddressRecord {
    /// Interface identifier; unique key within one enumeration result.
    pub name: String,
    /// Presentation-format IPv4 address; at most one is retained and a later
    /// one for the same interface overwrites an earlier one.
    pub ipv4: Option<String>,
    /// Presentation-format IPv6 address; same overwrite rule.
    pub ipv6: Option<String>,
    /// 6-byte hardware address rendered as six upper-case hexadecimal octets
    /// joined by colons.
    pub hardware_address: Option<String>,
}

/// Ghost model of `InterfaceAddressRecord`.
pub ghost struct RecordModel {
    pub name: Seq<char>,
    pub ipv4: Option<Seq<char>>,
    pub ipv6: Option<Seq<char>>,
    pub hardware_address: Option<Seq<char>>,
}

impl View for InterfaceAddressRecord {
    type V = RecordModel;

    open spec fn view(&self) -> RecordModel {
        RecordModel {
            name: self.name@,
            ipv4: match self.ipv4 {
                Option::Some(ref s) => Option::Some(s@),
                Option::None => Option::None,
            },
            ipv6: match self.ipv6 {
                Option::Some(ref s) => Option::Some(s@),
                Option::None => Option::None,
            },
            hardware_address: match self.hardware_address {
                Option::Some(ref s) => Option::Some(s@),
                Option::None => Option::None,
            },
        }
    }
}

/// The two independent host-identity scalars.
pub struct HostIdentity {
    /// Resolvable network name of the local machine.
    pub host_name: String,
    /// Human-readable OS/product description; an opaque descriptive string.
    pub system_name: String,
}

/// The external-facing aggregate: the interface table in first-finalized
/// order, plus the host identity.
pub struct EnumerationResult {
    pub devices: Vec<InterfaceAddressRecord>,
    pub identity: HostIdentity,
}

/// The models of a sequence of finalized records.
pub open spec fn records_model(rs: Seq<InterfaceAddressRecord>) -> Seq<RecordModel> {
    rs.map_values(|r: InterfaceAddressRecord| r@)
}

/// The models of a sequence of raw entries.
pub open spec fn entries_model(es: Seq<RawAddressEntry>) -> Seq<EntryModel> {
    es.map_values(|e: RawAddressEntry| e@)
}

/// The models of a sequence of adapter entries.
pub open spec fn adapters_model(es: Seq<AdapterEntry>) -> Seq<AdapterModel> {
    es.map_values(|e: AdapterEntry| e@)
}

} // verus!
