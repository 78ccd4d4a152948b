//! Address formatting: hardware addresses as upper-case colon-separated hex
//! pairs, IPv4 addresses in dotted-decimal form, IPv6 addresses in the
//! canonical compressed colon-hex form.

use vstd::prelude::*;

verus! {

/// The character for one digit value, upper-case for values 10..16.
pub open spec fn digit_char(d: int) -> char {
    if d == 0 { '0' }
    else if d == 1 { '1' }
    else if d == 2 { '2' }
    else if d == 3 { '3' }
    else if d == 4 { '4' }
    else if d == 5 { '5' }
    else if d == 6 { '6' }
    else if d == 7 { '7' }
    else if d == 8 { '8' }
    else if d == 9 { '9' }
    else if d == 10 { 'A' }
    else if d == 11 { 'B' }
    else if d == 12 { 'C' }
    else if d == 13 { 'D' }
    else if d == 14 { 'E' }
    else { 'F' }
}

/// The character for one digit value, lower-case for values 10..16.
pub open spec fn lower_digit_char(d: int) -> char {
    if d < 10 { digit_char(d) }
    else if d == 10 { 'a' }
    else if d == 11 { 'b' }
    else if d == 12 { 'c' }
    else if d == 13 { 'd' }
    else if d == 14 { 'e' }
    else { 'f' }
}

/// One byte as exactly two upper-case hex digits.
pub open spec fn byte_hex(b: u8) -> Seq<char> {
    seq![digit_char(b as int / 16), digit_char(b as int % 16)]
}

/// Six bytes rendered as six upper-case hex pairs joined by colons.
pub open spec fn mac_text(bs: Seq<u8>) -> Seq<char>
    recommends
        bs.len() == 6,
{
    byte_hex(bs[0]) + seq![':'] + byte_hex(bs[1]) + seq![':'] + byte_hex(bs[2]) + seq![':']
        + byte_hex(bs[3]) + seq![':'] + byte_hex(bs[4]) + seq![':'] + byte_hex(bs[5])
}

/// A value below 256 in decimal, without leading zeros.
pub open spec fn dec_text(b: int) -> Seq<char>
    recommends
        0 <= b < 256,
{
    if b < 10 { seq![digit_char(b)] }
    else if b < 100 { seq![digit_char(b / 10), digit_char(b % 10)] }
    else { seq![digit_char(b / 100), digit_char((b / 10) % 10), digit_char(b % 10)] }
}

/// A 32-bit IPv4 address in dotted-decimal form; the most significant byte
/// is the first octet.
pub open spec fn ipv4_text(v: u32) -> Seq<char> {
    dec_text(v as int / 0x1000000) + seq!['.'] + dec_text((v as int / 0x10000) % 256)
        + seq!['.'] + dec_text((v as int / 256) % 256) + seq!['.'] + dec_text(v as int % 256)
}

/// The single-character string for one digit value, upper-case.
fn digit_str_upper(d: u8) -> (r: &'static str)
    requires
        d < 16,
    ensures
        r@ =~= seq![digit_char(d as int)],
{
    match d {
        0 => { proof { reveal_strlit("0"); } "0" },
        1 => { proof { reveal_strlit("1"); } "1" },
        2 => { proof { reveal_strlit("2"); } "2" },
        3 => { proof { reveal_strlit("3"); } "3" },
        4 => { proof { reveal_strlit("4"); } "4" },
        5 => { proof { reveal_strlit("5"); } "5" },
        6 => { proof { reveal_strlit("6"); } "6" },
        7 => { proof { reveal_strlit("7"); } "7" },
        8 => { proof { reveal_strlit("8"); } "8" },
        9 => { proof { reveal_strlit("9"); } "9" },
        10 => { proof { reveal_strlit("A"); } "A" },
        11 => { proof { reveal_strlit("B"); } "B" },
        12 => { proof { reveal_strlit("C"); } "C" },
        13 => { proof { reveal_strlit("D"); } "D" },
        14 => { proof { reveal_strlit("E"); } "E" },
        _ => { proof { reveal_strlit("F"); } "F" },
    }
}

/// The single-character string for one digit value, lower-case.
fn digit_str_lower(d: u8) -> (r: &'static str)
    requires
        d < 16,
    ensures
        r@ =~= seq![lower_digit_char(d as int)],
{
    if d < 10 {
        digit_str_upper(d)
    } else {
        match d {
            10 => { proof { reveal_strlit("a"); } "a" },
            11 => { proof { reveal_strlit("b"); } "b" },
            12 => { proof { reveal_strlit("c"); } "c" },
            13 => { proof { reveal_strlit("d"); } "d" },
            14 => { proof { reveal_strlit("e"); } "e" },
            _ => { proof { reveal_strlit("f"); } "f" },
        }
    }
}

/// Appends one byte as two upper-case hex digits.
fn append_byte_hex(s: &mut String, b: u8)
    ensures
        final(s)@ == old(s)@ + byte_hex(b),
{
    s.append(digit_str_upper(b / 16));
    s.append(digit_str_upper(b % 16));
    proof {
        assert(s@ =~= old(s)@ + byte_hex(b));
    }
}

/// Appends one colon separator.
fn append_colon(s: &mut String)
    ensures
        final(s)@ == old(s)@ + seq![':'],
{
    proof {
        reveal_strlit(":");
    }
    s.append(":");
    proof {
        assert(s@ =~= old(s)@ + seq![':']);
    }
}

/// Formats the 6 hardware-address bytes found at `start` in `bytes` as six
/// upper-case hex pairs joined by colons.
pub fn format_mac_window(bytes: &Vec<u8>, start: usize) -> (r: String)
    requires
        start + 6 <= bytes@.len(),
    ensures
        r@ == mac_text(bytes@.subrange(start as int, start as int + 6)),
{
    let n = bytes.len();
    proof {
        assert(start + 6 <= n);
    }
    let mut s = String::new();
    append_byte_hex(&mut s, bytes[start]);
    append_colon(&mut s);
    append_byte_hex(&mut s, bytes[start + 1]);
    append_colon(&mut s);
    append_byte_hex(&mut s, bytes[start + 2]);
    append_colon(&mut s);
    append_byte_hex(&mut s, bytes[start + 3]);
    append_colon(&mut s);
    append_byte_hex(&mut s, bytes[start + 4]);
    append_colon(&mut s);
    append_byte_hex(&mut s, bytes[start + 5]);
    proof {
        assert(s@ =~= mac_text(bytes@.subrange(start as int, start as int + 6)));
    }
    s
}

/// Formats the first 6 bytes of `bytes` as a hardware-address string.
pub fn format_mac(bytes: &Vec<u8>) -> (r: String)
    requires
        bytes@.len() >= 6,
    ensures
        r@ == mac_text(bytes@.subrange(0, 6)),
{
    format_mac_window(bytes, 0)
}

/// Appends a value below 256 in decimal, without leading zeros.
fn append_dec(s: &mut String, b: u32)
    requires
        b < 256,
    ensures
        final(s)@ == old(s)@ + dec_text(b as int),
{
    if b < 10 {
        s.append(digit_str_upper(b as u8));
        proof {
            assert(s@ =~= old(s)@ + dec_text(b as int));
        }
    } else if b < 100 {
        s.append(digit_str_upper((b / 10) as u8));
        s.append(digit_str_upper((b % 10) as u8));
        proof {
            assert(s@ =~= old(s)@ + dec_text(b as int));
        }
    } else {
        s.append(digit_str_upper((b / 100) as u8));
        s.append(digit_str_upper(((b / 10) % 10) as u8));
        s.append(digit_str_upper((b % 10) as u8));
        proof {
            assert(s@ =~= old(s)@ + dec_text(b as int));
        }
    }
}

/// Appends one dot separator.
fn append_dot(s: &mut String)
    ensures
        final(s)@ == old(s)@ + seq!['.'],
{
    proof {
        reveal_strlit(".");
    }
    s.append(".");
    proof {
        assert(s@ =~= old(s)@ + seq!['.']);
    }
}

/// Renders a 32-bit IPv4 address in dotted-decimal form.
pub fn format_ipv4(v: u32) -> (r: String)
    ensures
        r@ == ipv4_text(v),
{
    let mut s = String::new();
    append_dec(&mut s, v / 0x1000000);
    append_dot(&mut s);
    append_dec(&mut s, (v / 0x10000) % 256);
    append_dot(&mut s);
    append_dec(&mut s, (v / 256) % 256);
    append_dot(&mut s);
    append_dec(&mut s, v % 256);
    proof {
        assert(s@ =~= ipv4_text(v));
    }
    s
}

/// One 16-bit IPv6 group in lower-case hex, without leading zeros.
pub open spec fn group_text(w: u16) -> Seq<char> {
    let n = w as int;
    if n < 16 { seq![lower_digit_char(n)] }
    else if n < 256 { seq![lower_digit_char(n / 16), lower_digit_char(n % 16)] }
    else if n < 4096 {
        seq![lower_digit_char(n / 256), lower_digit_char((n / 16) % 16), lower_digit_char(n % 16)]
    } else {
        seq![
            lower_digit_char(n / 4096),
            lower_digit_char((n / 256) % 16),
            lower_digit_char((n / 16) % 16),
            lower_digit_char(n % 16),
        ]
    }
}

/// Groups joined by single colons; empty for no groups.
pub open spec fn join_groups(ws: Seq<u16>) -> Seq<char>
    decreases ws.len(),
{
    if ws.len() == 0 { Seq::empty() }
    else if ws.len() == 1 { group_text(ws[0]) }
    else { group_text(ws[0]) + seq![':'] + join_groups(ws.drop_first()) }
}

/// Length of the run of zero groups starting at `i`.
pub open spec fn zero_run_len(ws: Seq<u16>, i: int) -> int
    decreases ws.len() - i when i <= ws.len()
{
    if i < 0 || i >= ws.len() || ws[i] != 0 { 0 } else { 1 + zero_run_len(ws, i + 1) }
}

/// Start of the leftmost longest run of zero groups in `ws` at or after `i`;
/// `ws.len()` when every run at or after `i` is empty.
pub open spec fn best_run_start_from(ws: Seq<u16>, i: int) -> int
    decreases ws.len() - i when i <= ws.len()
{
    if i >= ws.len() { i }
    else {
        let rest = best_run_start_from(ws, i + 1);
        if zero_run_len(ws, i) >= zero_run_len(ws, rest) { i } else { rest }
    }
}

/// The canonical compressed colon-hex form of eight 16-bit groups: the
/// leftmost longest run of at least two zero groups is replaced by `::`,
/// each remaining group is lower-case hex without leading zeros.
pub open spec fn ipv6_text(ws: Seq<u16>) -> Seq<char>
    recommends
        ws.len() == 8,
{
    let s = best_run_start_from(ws, 0);
    let l = zero_run_len(ws, s);
    if l >= 2 {
        join_groups(ws.subrange(0, s)) + seq![':', ':']
            + join_groups(ws.subrange(s + l, ws.len() as int))
    } else {
        join_groups(ws)
    }
}

/// The eight 16-bit groups of an IPv6 address given as 16 network-order bytes.
pub open spec fn words_of(octets: Seq<u8>) -> Seq<u16>
    recommends
        octets.len() == 16,
{
    Seq::new(8, |i: int| ((octets[2 * i] as int) * 256 + (octets[2 * i + 1] as int)) as u16)
}

/// A zero run never reaches past the end of the sequence.
proof fn lemma_zero_run_len_bounds(ws: Seq<u16>, i: int)
    requires
        0 <= i <= ws.len(),
    ensures
        0 <= zero_run_len(ws, i),
        i + zero_run_len(ws, i) <= ws.len(),
    decreases ws.len() - i,
{
    if i < ws.len() && ws[i] == 0 {
        lemma_zero_run_len_bounds(ws, i + 1);
    }
}

/// The chosen run start stays within bounds.
proof fn lemma_best_run_start_bounds(ws: Seq<u16>, i: int)
    requires
        0 <= i <= ws.len(),
    ensures
        i <= best_run_start_from(ws, i) <= ws.len(),
    decreases ws.len() - i,
{
    if i < ws.len() {
        lemma_best_run_start_bounds(ws, i + 1);
    }
}

/// Joining after appending one group on the right adds a separator exactly
/// when the left part was nonempty.
proof fn lemma_join_snoc(ws: Seq<u16>)
    requires
        ws.len() >= 1,
    ensures
        ws.len() == 1 ==> join_groups(ws) == group_text(ws[0]),
        ws.len() >= 2 ==> join_groups(ws) == join_groups(ws.drop_last()) + seq![':']
            + group_text(ws.last()),
    decreases ws.len(),
{
    if ws.len() >= 2 {
        lemma_join_snoc(ws.drop_first());
        assert(ws.drop_first().drop_last() =~= ws.drop_last().drop_first());
        if ws.len() == 2 {
            assert(join_groups(ws.drop_last()) == group_text(ws[0]));
            assert(ws.drop_first().len() == 1);
            assert(join_groups(ws) =~= join_groups(ws.drop_last()) + seq![':']
                + group_text(ws.last()));
        } else {
            assert(join_groups(ws.drop_first()) == join_groups(ws.drop_first().drop_last())
                + seq![':'] + group_text(ws.drop_first().last()));
            assert(ws.drop_last().len() >= 2);
            assert(join_groups(ws.drop_last()) == group_text(ws.drop_last()[0]) + seq![':']
                + join_groups(ws.drop_last().drop_first()));
            assert(ws.drop_first().last() == ws.last());
            assert(join_groups(ws) =~= join_groups(ws.drop_last()) + seq![':']
                + group_text(ws.last()));
        }
    }
}

/// Appends one 16-bit group in lower-case hex without leading zeros.
fn append_group(s: &mut String, w: u16)
    ensures
        final(s)@ == old(s)@ + group_text(w),
{
    if w < 16 {
        s.append(digit_str_lower(w as u8));
        proof {
            assert(s@ =~= old(s)@ + group_text(w));
        }
    } else if w < 256 {
        s.append(digit_str_lower((w / 16) as u8));
        s.append(digit_str_lower((w % 16) as u8));
        proof {
            assert(s@ =~= old(s)@ + group_text(w));
        }
    } else if w < 4096 {
        s.append(digit_str_lower((w / 256) as u8));
        s.append(digit_str_lower(((w / 16) % 16) as u8));
        s.append(digit_str_lower((w % 16) as u8));
        proof {
            assert(s@ =~= old(s)@ + group_text(w));
        }
    } else {
        s.append(digit_str_lower((w / 4096) as u8));
        s.append(digit_str_lower(((w / 256) % 16) as u8));
        s.append(digit_str_lower(((w / 16) % 16) as u8));
        s.append(digit_str_lower((w % 16) as u8));
        proof {
            assert(s@ =~= old(s)@ + group_text(w));
        }
    }
}

/// Appends the groups `words[from..to]` joined by single colons.
fn append_joined(s: &mut String, words: &Vec<u16>, from: usize, to: usize)
    requires
        from <= to <= words@.len(),
    ensures
        final(s)@ == old(s)@ + join_groups(words@.subrange(from as int, to as int)),
{
    let mut i = from;
    while i < to
        invariant
            from <= i <= to <= words@.len(),
            s@ == old(s)@ + join_groups(words@.subrange(from as int, i as int)),
        decreases to - i,
    {
        if i > from {
            append_colon(s);
        }
        append_group(s, words[i]);
        proof {
            let sub = words@.subrange(from as int, i + 1);
            lemma_join_snoc(sub);
            assert(sub.drop_last() =~= words@.subrange(from as int, i as int));
            assert(sub.last() == words@[i as int]);
            if i == from {
                assert(join_groups(words@.subrange(from as int, from as int)) =~= Seq::<char>::empty());
                assert(s@ =~= old(s)@ + join_groups(sub));
            } else {
                assert(s@ =~= old(s)@ + join_groups(sub));
            }
        }
        i += 1;
    }
}

/// Appends the two colons of a compressed zero run.
fn append_double_colon(s: &mut String)
    ensures
        final(s)@ == old(s)@ + seq![':', ':'],
{
    proof {
        reveal_strlit("::");
    }
    s.append("::");
    proof {
        assert(s@ =~= old(s)@ + seq![':', ':']);
    }
}

/// Converts 16 network-order bytes to the eight 16-bit groups.
pub fn words_from_octets(octets: &Vec<u8>) -> (r: Vec<u16>)
    requires
        octets@.len() == 16,
    ensures
        r@ == words_of(octets@),
{
    let mut r: Vec<u16> = Vec::new();
    let mut i: usize = 0;
    while i < 8
        invariant
            octets@.len() == 16,
            i <= 8,
            r@.len() == i,
            forall|j: int| 0 <= j < i ==> r@[j] == #[trigger] words_of(octets@)[j],
        decreases 8 - i,
    {
        let w: u16 = (octets[2 * i] as u16) * 256 + (octets[2 * i + 1] as u16);
        r.push(w);
        i += 1;
    }
    proof {
        assert(r@ =~= words_of(octets@));
    }
    r
}

/// Renders eight 16-bit groups in the canonical compressed colon-hex form.
pub fn format_ipv6(words: &Vec<u16>) -> (r: String)
    requires
        words@.len() == 8,
    ensures
        r@ == ipv6_text(words@),
{
    let ghost ws = words@;
    // Run lengths of zero-group runs, for every start index 0..=8.
    let mut rl: Vec<usize> = Vec::new();
    let mut k: usize = 0;
    while k < 9
        invariant
            ws == words@,
            ws.len() == 8,
            k <= 9,
            rl@.len() == k,
            forall|j: int| 0 <= j < k ==> rl@[j] == zero_run_len(words@, 8 - j),
        decreases 9 - k,
    {
        if k == 0 {
            rl.push(0);
        } else {
            let idx = 8 - k;
            if words[idx] != 0 {
                rl.push(0);
            } else {
                proof {
                    lemma_zero_run_len_bounds(ws, idx + 1);
                }
                let prev = rl[k - 1];
                rl.push(prev + 1);
            }
        }
        k += 1;
    }
    // rl is reversed: rl[j] == zero_run_len(ws, 8 - j). Rebuild in order.
    let mut run_len: Vec<usize> = Vec::new();
    let mut k2: usize = 0;
    while k2 < 9
        invariant
            ws == words@,
            ws.len() == 8,
            rl@.len() == 9,
            forall|j: int| 0 <= j < 9 ==> rl@[j] == zero_run_len(ws, 8 - j),
            k2 <= 9,
            run_len@.len() == k2,
            forall|j: int| 0 <= j < k2 ==> run_len@[j] == zero_run_len(ws, j),
        decreases 9 - k2,
    {
        run_len.push(rl[8 - k2]);
        k2 += 1;
    }
    // Leftmost longest zero run.
    let mut best: usize = 8;
    let mut i: usize = 8;
    while i > 0
        invariant
            ws == words@,
            ws.len() == 8,
            run_len@.len() == 9,
            forall|j: int| 0 <= j < 9 ==> run_len@[j] == zero_run_len(ws, j),
            i <= 8,
            best <= 8,
            best == best_run_start_from(ws, i as int),
        decreases i,
    {
        i -= 1;
        if run_len[i] >= run_len[best] {
            best = i;
        }
        proof {
            lemma_best_run_start_bounds(ws, i as int);
        }
    }
    let l = run_len[best];
    proof {
        lemma_zero_run_len_bounds(ws, best as int);
        assert(best + l <= 8);
    }
    let mut s = String::new();
    if l >= 2 {
        append_joined(&mut s, words, 0, best);
        append_double_colon(&mut s);
        append_joined(&mut s, words, best + l, 8);
        proof {
            assert(s@ =~= ipv6_text(ws));
        }
    } else {
        append_joined(&mut s, words, 0, 8);
        proof {
            assert(ws.subrange(0, 8) =~= ws);
            assert(s@ =~= ipv6_text(ws));
        }
    }
    s
}

/// Hardware-address formatting always yields the same fixed shape: 17
/// characters, colons at positions 2, 5, 8, 11 and 14, an upper-case hex
/// digit everywhere else. Determinism itself is immediate: `mac_text` is a
/// function of the 6 bytes alone.
pub proof fn lemma_mac_text_shape(bs: Seq<u8>)
    requires
        bs.len() == 6,
    ensures
        mac_text(bs).len() == 17,
        forall|i: int| #![auto] 0 <= i < 17 && i % 3 == 2 ==> mac_text(bs)[i] == ':',
        forall|i: int|
            0 <= i < 17 && i % 3 != 2 ==> exists|d: int|
                0 <= d < 16 && #[trigger] mac_text(bs)[i] == #[trigger] digit_char(d),
{
    assert forall|i: int| 0 <= i < 17 && i % 3 != 2 implies exists|d: int|
        0 <= d < 16 && #[trigger] mac_text(bs)[i] == #[trigger] digit_char(d) by {
        let b = bs[i / 3];
        if i % 3 == 0 {
            assert(mac_text(bs)[i] == digit_char(b as int / 16));
            assert(0 <= b as int / 16 < 16);
        } else {
            assert(mac_text(bs)[i] == digit_char(b as int % 16));
            assert(0 <= b as int % 16 < 16);
        }
    }
}

} // verus!
