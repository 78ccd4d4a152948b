//! The result assembler: combines the interface table with the two
//! host-identity scalars, failing the whole call when any part failed. No
//! partial result is ever produced: an enumeration failure wins even when
//! both identity queries succeeded.

use vstd::prelude::*;
use crate::types::{
    AdapterEntry, DevInfoError, EnumerationResult, HostIdentity, RawAddressEntry, adapters_model,
    entries_model, records_model,
};
use crate::aggregate::{adapters_aggregate, aggregate, collect_adapters, collect_interfaces};

verus! {

/// Builds the enumeration result from a POSIX-style raw address stream and
/// the two identity queries' outcomes. The interface table is the single
/// grouping pass over the stream; if the stream could not be obtained its
/// error is returned, else a failed host-name query's error, else a failed
/// system-name query's error.
pub fn assemble(
    addresses: Result<Vec<RawAddressEntry>, DevInfoError>,
    host_name: Result<String, DevInfoError>,
    system_name: Result<String, DevInfoError>,
) -> (r: Result<EnumerationResult, DevInfoError>)
    ensures
        addresses is Err ==> r is Err && r->Err_0 == addresses->Err_0,
        addresses is Ok && host_name is Err ==> r is Err && r->Err_0 == host_name->Err_0,
        addresses is Ok && host_name is Ok && system_name is Err ==> r is Err && r->Err_0
            == system_name->Err_0,
        addresses is Ok && host_name is Ok && system_name is Ok ==> r is Ok && records_model(
            r->Ok_0.devices@,
        ) == aggregate(entries_model(addresses->Ok_0@)) && r->Ok_0.identity.host_name@
            == host_name->Ok_0@ && r->Ok_0.identity.system_name@ == system_name->Ok_0@,
{
    match addresses {
        Ok(entries) => match host_name {
            Ok(host) => match system_name {
                Ok(system) => {
                    let devices = collect_interfaces(&entries);
                    Ok(EnumerationResult {
                        devices,
                        identity: HostIdentity { host_name: host, system_name: system },
                    })
                },
                Err(e) => Err(e),
            },
            Err(e) => Err(e),
        },
        Err(e) => Err(e),
    }
}

/// Builds the enumeration result from an adapter-list style enumeration and
/// the two identity queries' outcomes, with the same failure rule as
/// `assemble`.
pub fn assemble_adapters(
    adapters: Result<Vec<AdapterEntry>, DevInfoError>,
    host_name: Result<String, DevInfoError>,
    system_name: Result<String, DevInfoError>,
) -> (r: Result<EnumerationResult, DevInfoError>)
    ensures
        adapters is Err ==> r is Err && r->Err_0 == adapters->Err_0,
        adapters is Ok && host_name is Err ==> r is Err && r->Err_0 == host_name->Err_0,
        adapters is Ok && host_name is Ok && system_name is Err ==> r is Err && r->Err_0
            == system_name->Err_0,
        adapters is Ok && host_name is Ok && system_name is Ok ==> r is Ok && records_model(
            r->Ok_0.devices@,
        ) == adapters_aggregate(adapters_model(adapters->Ok_0@)) && r->Ok_0.identity.host_name@
            == host_name->Ok_0@ && r->Ok_0.identity.system_name@ == system_name->Ok_0@,
{
    match adapters {
        Ok(entries) => match host_name {
            Ok(host) => match system_name {
                Ok(system) => {
                    let devices = collect_adapters(&entries);
                    Ok(EnumerationResult {
                        devices,
                        identity: HostIdentity { host_name: host, system_name: system },
                    })
                },
                Err(e) => Err(e),
            },
            Err(e) => Err(e),
        },
        Err(e) => Err(e),
    }
}

} // verus!
