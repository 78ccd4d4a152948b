//! The interface walker and aggregator: a single pass over the raw OS
//! address stream, filtering to active interfaces, classifying each entry's
//! address and merging consecutive entries that share an interface name into
//! one consolidated record; and the 1:1 mapping used for the adapter-list
//! style enumeration.

use vstd::prelude::*;
use vstd::pervasive::VecAdditionalExecFns;
use crate::types::{
    AdapterEntry, AdapterModel, AddressModel, EntryModel, InterfaceAddressRecord,
    RawAddress, RawAddressEntry, RecordModel, ETHERNET_ADAPTER_TYPE, IFF_UP_FLAG,
    adapters_model, entries_model, is_active, records_model,
};
use crate::addr_fmt::{
    format_ipv4, format_ipv6, format_mac_window, ipv4_text, ipv6_text, mac_text, words_from_octets,
    words_of,
};

verus! {

/// A record for `name` with no addresses yet.
pub open spec fn empty_record(name: Seq<char>) -> RecordModel {
    RecordModel { name: name, ipv4: None, ipv6: None, hardware_address: None }
}

/// Merging one raw address payload into a record. Each family overwrites its
/// own slot, so a later address of the same family replaces an earlier one;
/// unknown families and payloads without a full address contribute nothing.
pub open spec fn merge_addr(r: RecordModel, a: AddressModel) -> RecordModel {
    match a {
        AddressModel::Link { header, data } => {
            if 0 <= header && header + 6 <= data.len() {
                RecordModel {
                    name: r.name,
                    ipv4: r.ipv4,
                    ipv6: r.ipv6,
                    hardware_address: Some(mac_text(data.subrange(header, header + 6))),
                }
            } else {
                r
            }
        },
        AddressModel::V4 { addr } => RecordModel {
            name: r.name,
            ipv4: Some(ipv4_text(addr)),
            ipv6: r.ipv6,
            hardware_address: r.hardware_address,
        },
        AddressModel::V6 { octets } => {
            if octets.len() == 16 {
                RecordModel {
                    name: r.name,
                    ipv4: r.ipv4,
                    ipv6: Some(ipv6_text(words_of(octets))),
                    hardware_address: r.hardware_address,
                }
            } else {
                r
            }
        },
        AddressModel::Other => r,
    }
}

/// Index of the first record with the given name, or `rs.len()` if none.
pub open spec fn find_name(rs: Seq<RecordModel>, name: Seq<char>) -> int
    decreases rs.len(),
{
    if rs.len() == 0 { 0 }
    else if rs[0].name == name { 0 }
    else { 1 + find_name(rs.drop_first(), name) }
}

/// Finalizing a record: it replaces the record of the same name if one was
/// already finalized, and is appended otherwise, so names stay unique keys.
pub open spec fn insert_record(rs: Seq<RecordModel>, r: RecordModel) -> Seq<RecordModel> {
    let i = find_name(rs, r.name);
    if i < rs.len() { rs.update(i, r) } else { rs.push(r) }
}

/// `find_name` points at the first occurrence of `name`, if any.
proof fn lemma_find_name(rs: Seq<RecordModel>, name: Seq<char>)
    ensures
        0 <= find_name(rs, name) <= rs.len(),
        find_name(rs, name) < rs.len() ==> rs[find_name(rs, name)].name == name,
        forall|k: int| 0 <= k < find_name(rs, name) ==> rs[k].name != name,
    decreases rs.len(),
{
    if rs.len() > 0 && rs[0].name != name {
        lemma_find_name(rs.drop_first(), name);
        assert forall|k: int| 0 <= k < find_name(rs, name) implies rs[k].name != name by {
            if k > 0 {
                assert(rs.drop_first()[k - 1] == rs[k]);
            }
        }
    }
}

/// When the first occurrence of `name` is at `j`, `find_name` returns `j`.
proof fn lemma_find_name_first(rs: Seq<RecordModel>, name: Seq<char>, j: int)
    requires
        0 <= j < rs.len(),
        forall|k: int| 0 <= k < j ==> rs[k].name != name,
        rs[j].name == name,
    ensures
        find_name(rs, name) == j,
    decreases j,
{
    if j > 0 {
        assert(rs[0].name != name);
        assert forall|k: int| 0 <= k < j - 1 implies rs.drop_first()[k].name != name by {
            assert(rs.drop_first()[k] == rs[k + 1]);
        }
        assert(rs.drop_first()[j - 1] == rs[j]);
        lemma_find_name_first(rs.drop_first(), name, j - 1);
    }
}

/// When no record has `name`, `find_name` returns the length.
proof fn lemma_find_name_absent(rs: Seq<RecordModel>, name: Seq<char>)
    requires
        forall|k: int| 0 <= k < rs.len() ==> rs[k].name != name,
    ensures
        find_name(rs, name) == rs.len(),
    decreases rs.len(),
{
    if rs.len() > 0 {
        assert forall|k: int| 0 <= k < rs.len() - 1 implies rs.drop_first()[k].name != name by {
            assert(rs.drop_first()[k] == rs[k + 1]);
        }
        lemma_find_name_absent(rs.drop_first(), name);
    }
}

/// Every element of `insert_record(rs, r)` is `r` or an element of `rs`.
proof fn lemma_insert_record_elems(rs: Seq<RecordModel>, r: RecordModel)
    ensures
        forall|k: int| 0 <= k < insert_record(rs, r).len() ==> insert_record(rs, r)[k] == r
            || (0 <= k < rs.len() && insert_record(rs, r)[k] == rs[k]),
{
    lemma_find_name(rs, r.name);
}

/// The grouping state machine over the raw entry stream, from position `i`
/// with `cur` the record being accumulated (if any) and `out` the records
/// finalized so far. Inactive entries are skipped; an active entry merges
/// into `cur` while its name matches and otherwise finalizes `cur` and seeds
/// a fresh record; the end of the stream finalizes `cur`.
pub open spec fn aggregate_from(
    entries: Seq<EntryModel>,
    i: int,
    cur: Option<RecordModel>,
    out: Seq<RecordModel>,
) -> Seq<RecordModel>
    decreases entries.len() - i when i <= entries.len()
{
    if i >= entries.len() {
        match cur {
            Some(r) => insert_record(out, r),
            None => out,
        }
    } else {
        let e = entries[i];
        if !is_active(e) {
            aggregate_from(entries, i + 1, cur, out)
        } else {
            match cur {
                None => aggregate_from(
                    entries,
                    i + 1,
                    Some(merge_addr(empty_record(e.name), e.address)),
                    out,
                ),
                Some(r) => {
                    if r.name == e.name {
                        aggregate_from(entries, i + 1, Some(merge_addr(r, e.address)), out)
                    } else {
                        aggregate_from(
                            entries,
                            i + 1,
                            Some(merge_addr(empty_record(e.name), e.address)),
                            insert_record(out, r),
                        )
                    }
                },
            }
        }
    }
}

/// The interface mapping produced by one full pass over the raw stream.
pub open spec fn aggregate(entries: Seq<EntryModel>) -> Seq<RecordModel> {
    aggregate_from(entries, 0, None, Seq::empty())
}

/// Classifies one raw address payload and merges it into the record:
/// link-layer payloads with a full 6-byte window set the hardware address,
/// IPv4 and IPv6 payloads overwrite their slots, anything else is a no-op.
pub fn apply_address(rec: &mut InterfaceAddressRecord, addr: &RawAddress)
    ensures
        final(rec)@ == merge_addr(old(rec)@, addr@),
{
    match addr {
        RawAddress::Link { header_len, data } => {
            if data.len() >= 6 && *header_len <= data.len() - 6 {
                rec.hardware_address = Some(format_mac_window(data, *header_len));
            }
        },
        RawAddress::V4 { addr } => {
            rec.ipv4 = Some(format_ipv4(*addr));
        },
        RawAddress::V6 { octets } => {
            if octets.len() == 16 {
                let words = words_from_octets(octets);
                rec.ipv6 = Some(format_ipv6(&words));
            }
        },
        RawAddress::Other => {},
    }
}

/// Finalizes one record into the output table, replacing an earlier record
/// of the same name if there is one.
fn insert_or_replace(out: &mut Vec<InterfaceAddressRecord>, rec: InterfaceAddressRecord)
    ensures
        records_model(final(out)@) == insert_record(records_model(old(out)@), rec@),
{
    let n = out.len();
    let mut j: usize = 0;
    while j < n
        invariant
            j <= n,
            n == out@.len(),
            out@ == old(out)@,
            forall|k: int| 0 <= k < j ==> records_model(out@)[k].name != rec@.name,
        decreases n - j,
    {
        if out[j].name == rec.name {
            proof {
                assert(records_model(out@)[j as int].name == rec@.name);
                lemma_find_name_first(records_model(out@), rec@.name, j as int);
            }
            out.set(j, rec);
            proof {
                assert(records_model(out@) =~= records_model(old(out)@).update(
                    j as int,
                    rec@,
                ));
            }
            return;
        }
        proof {
            assert(records_model(out@)[j as int].name == out@[j as int]@.name);
        }
        j += 1;
    }
    proof {
        lemma_find_name_absent(records_model(out@), rec@.name);
    }
    out.push(rec);
    proof {
        assert(records_model(out@) =~= records_model(old(out)@).push(rec@));
    }
}

/// One full enumeration pass over a POSIX-style raw stream: skips inactive
/// entries, groups name-contiguous entries into one record each, and returns
/// the finalized records in first-finalized order.
pub fn collect_interfaces(entries: &Vec<RawAddressEntry>) -> (r: Vec<InterfaceAddressRecord>)
    ensures
        records_model(r@) == aggregate(entries_model(entries@)),
{
    let ghost em = entries_model(entries@);
    let mut out: Vec<InterfaceAddressRecord> = Vec::new();
    let mut have_cur = false;
    let mut cur = InterfaceAddressRecord {
        name: String::new(),
        ipv4: None,
        ipv6: None,
        hardware_address: None,
    };
    let n = entries.len();
    let mut i: usize = 0;
    proof {
        assert(records_model(out@) =~= Seq::<RecordModel>::empty());
    }
    while i < n
        invariant
            em == entries_model(entries@),
            em.len() == entries@.len(),
            n == entries@.len(),
            i <= n,
            aggregate_from(
                em,
                i as int,
                if have_cur { Some(cur@) } else { None },
                records_model(out@),
            ) == aggregate(em),
        decreases n - i,
    {
        let e = &entries[i];
        proof {
            assert(em[i as int] == entries@[i as int]@);
        }
        if e.flags & IFF_UP_FLAG != 0 {
            let same = have_cur && cur.name == e.name;
            if same {
                apply_address(&mut cur, &e.address);
            } else if have_cur {
                let finished = cur;
                cur = InterfaceAddressRecord {
                    name: e.name.clone(),
                    ipv4: None,
                    ipv6: None,
                    hardware_address: None,
                };
                insert_or_replace(&mut out, finished);
                apply_address(&mut cur, &e.address);
            } else {
                cur = InterfaceAddressRecord {
                    name: e.name.clone(),
                    ipv4: None,
                    ipv6: None,
                    hardware_address: None,
                };
                apply_address(&mut cur, &e.address);
                have_cur = true;
            }
        }
        i += 1;
    }
    if have_cur {
        insert_or_replace(&mut out, cur);
    }
    out
}

/// The record of one wired adapter node: the adapter's name, its IPv4
/// address as handed out by the OS, and its hardware address when at least
/// 6 address bytes are present.
pub open spec fn adapter_record(a: AdapterModel) -> RecordModel {
    RecordModel {
        name: a.name,
        ipv4: Some(a.ip_address),
        ipv6: None,
        hardware_address: if a.hardware.len() >= 6 {
            Some(mac_text(a.hardware.subrange(0, 6)))
        } else {
            None
        },
    }
}

/// The adapter-list style pass from position `i`: each wired adapter maps
/// 1:1 to one finalized record; other adapter types are skipped.
pub open spec fn adapters_aggregate_from(
    adapters: Seq<AdapterModel>,
    i: int,
    out: Seq<RecordModel>,
) -> Seq<RecordModel>
    decreases adapters.len() - i when i <= adapters.len()
{
    if i >= adapters.len() {
        out
    } else if adapters[i].if_type == ETHERNET_ADAPTER_TYPE {
        adapters_aggregate_from(adapters, i + 1, insert_record(out, adapter_record(adapters[i])))
    } else {
        adapters_aggregate_from(adapters, i + 1, out)
    }
}

/// The interface mapping produced from an adapter-list style enumeration.
pub open spec fn adapters_aggregate(adapters: Seq<AdapterModel>) -> Seq<RecordModel> {
    adapters_aggregate_from(adapters, 0, Seq::empty())
}

/// One full pass over an adapter-list style enumeration: every wired
/// adapter yields one finalized record carrying its name, IPv4 address and
/// hardware address.
pub fn collect_adapters(adapters: &Vec<AdapterEntry>) -> (r: Vec<InterfaceAddressRecord>)
    ensures
        records_model(r@) == adapters_aggregate(adapters_model(adapters@)),
{
    let ghost am = adapters_model(adapters@);
    let mut out: Vec<InterfaceAddressRecord> = Vec::new();
    let n = adapters.len();
    let mut i: usize = 0;
    proof {
        assert(records_model(out@) =~= Seq::<RecordModel>::empty());
    }
    while i < n
        invariant
            am == adapters_model(adapters@),
            am.len() == adapters@.len(),
            n == adapters@.len(),
            i <= n,
            adapters_aggregate_from(am, i as int, records_model(out@)) == adapters_aggregate(am),
        decreases n - i,
    {
        let a = &adapters[i];
        proof {
            assert(am[i as int] == adapters@[i as int]@);
        }
        if a.if_type == ETHERNET_ADAPTER_TYPE {
            let hw = if a.hardware.len() >= 6 {
                Some(format_mac_window(&a.hardware, 0))
            } else {
                None
            };
            let rec = InterfaceAddressRecord {
                name: a.name.clone(),
                ipv4: Some(a.ip_address.clone()),
                ipv6: None,
                hardware_address: hw,
            };
            proof {
                assert(rec@ == adapter_record(am[i as int]));
            }
            insert_or_replace(&mut out, rec);
        }
        i += 1;
    }
    out
}

/// Whether some active entry of the stream names `name`.
pub open spec fn name_of_active_entry(entries: Seq<EntryModel>, name: Seq<char>) -> bool {
    exists|j: int|
        0 <= j < entries.len() && is_active(#[trigger] entries[j]) && entries[j].name == name
}

proof fn lemma_keys_from(
    entries: Seq<EntryModel>,
    i: int,
    cur: Option<RecordModel>,
    out: Seq<RecordModel>,
)
    requires
        0 <= i <= entries.len(),
        forall|k: int|
            0 <= k < out.len() ==> name_of_active_entry(entries, #[trigger] out[k].name),
        cur is Some ==> name_of_active_entry(entries, cur->0.name),
    ensures
        forall|k: int|
            0 <= k < aggregate_from(entries, i, cur, out).len() ==> name_of_active_entry(
                entries,
                #[trigger] aggregate_from(entries, i, cur, out)[k].name,
            ),
    decreases entries.len() - i,
{
    if i >= entries.len() {
        match cur {
            Some(r) => {
                lemma_insert_record_elems(out, r);
                let res = insert_record(out, r);
                assert forall|k: int| 0 <= k < res.len() implies name_of_active_entry(
                    entries,
                    res[k].name,
                ) by {
                    if res[k] != r {
                        assert(name_of_active_entry(entries, out[k].name));
                    }
                }
            },
            None => {},
        }
    } else {
        let e = entries[i];
        if !is_active(e) {
            lemma_keys_from(entries, i + 1, cur, out);
        } else {
            assert(is_active(entries[i]) && entries[i].name == e.name);
            assert(name_of_active_entry(entries, e.name));
            match cur {
                None => {
                    lemma_keys_from(
                        entries,
                        i + 1,
                        Some(merge_addr(empty_record(e.name), e.address)),
                        out,
                    );
                },
                Some(r) => {
                    if r.name == e.name {
                        lemma_keys_from(entries, i + 1, Some(merge_addr(r, e.address)), out);
                    } else {
                        lemma_insert_record_elems(out, r);
                        let out2 = insert_record(out, r);
                        assert forall|k: int| 0 <= k < out2.len() implies name_of_active_entry(
                            entries,
                            out2[k].name,
                        ) by {
                            if out2[k] != r {
                                assert(name_of_active_entry(entries, out[k].name));
                            }
                        }
                        lemma_keys_from(
                            entries,
                            i + 1,
                            Some(merge_addr(empty_record(e.name), e.address)),
                            insert_record(out, r),
                        );
                    }
                },
            }
        }
    }
}

/// Every finalized record's key is the interface name of some contributing
/// active entry, so an interface that only ever appears down is never a key.
pub proof fn lemma_keys_from_active_entries(entries: Seq<EntryModel>)
    ensures
        forall|k: int|
            0 <= k < aggregate(entries).len() ==> name_of_active_entry(
                entries,
                #[trigger] aggregate(entries)[k].name,
            ),
{
    lemma_keys_from(entries, 0, None, Seq::empty());
}

/// An interface name that only ever appears on inactive entries is never a
/// key of the result.
pub proof fn lemma_down_only_name_absent(entries: Seq<EntryModel>, name: Seq<char>)
    requires
        forall|j: int| #![trigger entries[j]]
            0 <= j < entries.len() && entries[j].name == name ==> !is_active(entries[j]),
    ensures
        forall|k: int|
            0 <= k < aggregate(entries).len() ==> #[trigger] aggregate(entries)[k].name != name,
{
    lemma_keys_from_active_entries(entries);
    assert forall|k: int|
        0 <= k < aggregate(entries).len() implies #[trigger] aggregate(entries)[k].name
        != name by {
        if aggregate(entries)[k].name == name {
            let j = choose|j: int|
                0 <= j < entries.len() && is_active(#[trigger] entries[j]) && entries[j].name
                    == name;
            assert(!is_active(entries[j]));
        }
    }
}

/// Folding a sequence of raw address payloads into a record, in order.
pub open spec fn merge_fold(r: RecordModel, addrs: Seq<AddressModel>) -> RecordModel
    decreases addrs.len(),
{
    if addrs.len() == 0 {
        r
    } else {
        merge_fold(merge_addr(r, addrs[0]), addrs.drop_first())
    }
}

/// The address payloads of a raw entry stream, in order.
pub open spec fn addrs_of(entries: Seq<EntryModel>) -> Seq<AddressModel> {
    entries.map_values(|e: EntryModel| e.address)
}

/// Whether any payload is an IPv4 address.
pub open spec fn has_v4(addrs: Seq<AddressModel>) -> bool {
    exists|j: int| 0 <= j < addrs.len() && #[trigger] addrs[j] is V4
}

/// The index of the last IPv4 payload, or -1 if there is none.
pub open spec fn last_v4_index(addrs: Seq<AddressModel>) -> int
    decreases addrs.len(),
{
    if addrs.len() == 0 { -1 }
    else if addrs.last() is V4 { addrs.len() - 1 }
    else { last_v4_index(addrs.drop_last()) }
}

/// The 32-bit payload of an IPv4 address record.
pub open spec fn v4_payload(a: AddressModel) -> u32 {
    match a {
        AddressModel::V4 { addr } => addr,
        _ => 0,
    }
}

proof fn lemma_merge_fold_snoc(r: RecordModel, addrs: Seq<AddressModel>, a: AddressModel)
    ensures
        merge_fold(r, addrs.push(a)) == merge_addr(merge_fold(r, addrs), a),
    decreases addrs.len(),
{
    if addrs.len() == 0 {
        assert(addrs.push(a)[0] == a);
        assert(addrs.push(a).drop_first() =~= Seq::<AddressModel>::empty());
        assert(merge_fold(r, addrs.push(a)) == merge_fold(
            merge_addr(r, a),
            addrs.push(a).drop_first(),
        ));
        assert(merge_fold(merge_addr(r, a), Seq::<AddressModel>::empty()) == merge_addr(r, a));
        assert(merge_fold(r, addrs) == r);
    } else {
        assert(addrs.push(a)[0] == addrs[0]);
        assert(addrs.push(a).drop_first() =~= addrs.drop_first().push(a));
        lemma_merge_fold_snoc(merge_addr(r, addrs[0]), addrs.drop_first(), a);
        assert(merge_fold(r, addrs.push(a)) == merge_fold(
            merge_addr(r, addrs[0]),
            addrs.drop_first().push(a),
        ));
        assert(merge_fold(r, addrs) == merge_fold(merge_addr(r, addrs[0]), addrs.drop_first()));
    }
}

/// When at least one payload of the fold is an IPv4 address, the folded
/// record holds exactly the last one: a later IPv4 address overwrites an
/// earlier one, whatever other payloads stand in between.
pub proof fn lemma_ipv4_last_write_wins(r: RecordModel, addrs: Seq<AddressModel>)
    requires
        has_v4(addrs),
    ensures
        0 <= last_v4_index(addrs) < addrs.len(),
        addrs[last_v4_index(addrs)] is V4,
        merge_fold(r, addrs).ipv4 == Some(ipv4_text(v4_payload(addrs[last_v4_index(addrs)]))),
    decreases addrs.len(),
{
    let j = choose|j: int| 0 <= j < addrs.len() && #[trigger] addrs[j] is V4;
    assert(addrs.len() > 0);
    lemma_merge_fold_snoc(r, addrs.drop_last(), addrs.last());
    assert(addrs.drop_last().push(addrs.last()) =~= addrs);
    if addrs.last() is V4 {
    } else {
        assert(j < addrs.len() - 1);
        assert(addrs.drop_last()[j] == addrs[j]);
        assert(has_v4(addrs.drop_last()));
        lemma_ipv4_last_write_wins(r, addrs.drop_last());
        assert(addrs.drop_last()[last_v4_index(addrs.drop_last())]
            == addrs[last_v4_index(addrs)]);
    }
}

/// The fold of the payloads of `entries[i..]` into `r`, stated over the
/// entry stream itself.
pub open spec fn merge_fold_entries(r: RecordModel, entries: Seq<EntryModel>, i: int) -> RecordModel
    decreases entries.len() - i when i <= entries.len()
{
    if i >= entries.len() {
        r
    } else {
        merge_fold_entries(merge_addr(r, entries[i].address), entries, i + 1)
    }
}

proof fn lemma_fold_entries_eq(r: RecordModel, entries: Seq<EntryModel>, i: int)
    requires
        0 <= i <= entries.len(),
    ensures
        merge_fold_entries(r, entries, i) == merge_fold(
            r,
            addrs_of(entries).subrange(i, entries.len() as int),
        ),
    decreases entries.len() - i,
{
    let l = entries.len() as int;
    if i >= l {
        assert(addrs_of(entries).subrange(i, l) =~= Seq::<AddressModel>::empty());
    } else {
        lemma_fold_entries_eq(merge_addr(r, entries[i].address), entries, i + 1);
        let sub = addrs_of(entries).subrange(i, l);
        assert(sub[0] == entries[i].address);
        assert(sub.drop_first() =~= addrs_of(entries).subrange(i + 1, l));
    }
}

proof fn lemma_uniform_from(
    entries: Seq<EntryModel>,
    i: int,
    r: RecordModel,
    out: Seq<RecordModel>,
)
    requires
        0 <= i <= entries.len(),
        forall|j: int| #![trigger entries[j]]
            i <= j < entries.len() ==> entries[j].name == r.name && is_active(entries[j]),
    ensures
        aggregate_from(entries, i, Some(r), out) == insert_record(
            out,
            merge_fold_entries(r, entries, i),
        ),
    decreases entries.len() - i,
{
    if i < entries.len() {
        let e = entries[i];
        assert(entries[i].name == r.name && is_active(entries[i]));
        lemma_uniform_from(entries, i + 1, merge_addr(r, e.address), out);
    }
}

/// A nonempty stream whose entries all name the same active interface
/// yields exactly one record: the fold of every payload, in stream order.
pub proof fn lemma_uniform_block(entries: Seq<EntryModel>, name: Seq<char>)
    requires
        entries.len() > 0,
        forall|j: int| #![trigger entries[j]]
            0 <= j < entries.len() ==> entries[j].name == name && is_active(entries[j]),
    ensures
        aggregate(entries) =~= seq![merge_fold(empty_record(name), addrs_of(entries))],
{
    let e = entries[0];
    assert(entries[0].name == name && is_active(entries[0]));
    lemma_uniform_from(
        entries,
        1,
        merge_addr(empty_record(name), e.address),
        Seq::empty(),
    );
    let addrs = addrs_of(entries);
    assert(addrs[0] == e.address);
    lemma_fold_entries_eq(empty_record(name), entries, 0);
    assert(addrs.subrange(0, entries.len() as int) =~= addrs);
    let folded = merge_fold(empty_record(name), addrs);
    assert(merge_fold_entries(empty_record(name), entries, 0) == merge_fold_entries(
        merge_addr(empty_record(name), e.address),
        entries,
        1,
    ));
    assert(insert_record(Seq::empty(), folded) =~= seq![folded]);
}

/// For a finalized record built from same-name active entries, if any entry
/// carries an IPv4 address, the record holds the last one seen.
pub proof fn lemma_record_ipv4_last_write_wins(entries: Seq<EntryModel>, name: Seq<char>)
    requires
        entries.len() > 0,
        forall|j: int| #![trigger entries[j]]
            0 <= j < entries.len() ==> entries[j].name == name && is_active(entries[j]),
        has_v4(addrs_of(entries)),
    ensures
        aggregate(entries).len() == 1,
        aggregate(entries)[0].ipv4 == Some(
            ipv4_text(v4_payload(addrs_of(entries)[last_v4_index(addrs_of(entries))])),
        ),
{
    lemma_uniform_block(entries, name);
    lemma_ipv4_last_write_wins(empty_record(name), addrs_of(entries));
}

proof fn lemma_no_active_from(entries: Seq<EntryModel>, i: int, out: Seq<RecordModel>)
    requires
        0 <= i <= entries.len(),
        forall|j: int| i <= j < entries.len() ==> !is_active(#[trigger] entries[j]),
    ensures
        aggregate_from(entries, i, None, out) == out,
    decreases entries.len() - i,
{
    if i < entries.len() {
        lemma_no_active_from(entries, i + 1, out);
    }
}

/// A raw stream with no active interfaces yields an empty interface mapping.
pub proof fn lemma_no_active_entries_empty(entries: Seq<EntryModel>)
    requires
        forall|j: int| 0 <= j < entries.len() ==> !is_active(#[trigger] entries[j]),
    ensures
        aggregate(entries) == Seq::<RecordModel>::empty(),
{
    lemma_no_active_from(entries, 0, Seq::empty());
}

} // verus!
