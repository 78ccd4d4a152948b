//! Text utilities behind the two host-identity queries: trimming an
//! OS-filled byte buffer at its first NUL, parsing a release file for the
//! human-readable product name, and prefixing a version string with the
//! platform word.

use vstd::prelude::*;
use vstd::string::StrSliceExecFns;
use vstd::string::StringExecFns;

verus! {

/// Index of the first NUL byte, or the length if there is none.
pub open spec fn first_nul(bs: Seq<u8>) -> int
    decreases bs.len(),
{
    if bs.len() == 0 { 0 }
    else if bs[0] == 0 { 0 }
    else { 1 + first_nul(bs.drop_first()) }
}

/// When everything before `j` is non-NUL and `j` is the end or a NUL, the
/// first NUL is at `j`.
proof fn lemma_first_nul_at(bs: Seq<u8>, j: int)
    requires
        0 <= j <= bs.len(),
        forall|k: int| 0 <= k < j ==> bs[k] != 0,
        j < bs.len() ==> bs[j] == 0,
    ensures
        first_nul(bs) == j,
    decreases j,
{
    if j > 0 {
        assert(bs[0] != 0);
        assert forall|k: int| 0 <= k < j - 1 implies bs.drop_first()[k] != 0 by {
            assert(bs.drop_first()[k] == bs[k + 1]);
        }
        if j < bs.len() {
            assert(bs.drop_first()[j - 1] == bs[j]);
        }
        lemma_first_nul_at(bs.drop_first(), j - 1);
    }
}

/// The prefix of an OS-filled byte buffer up to (not including) its first
/// NUL byte; the whole buffer if it holds none.
pub fn bytes_before_nul(buf: &Vec<u8>) -> (r: Vec<u8>)
    ensures
        r@ == buf@.take(first_nul(buf@)),
{
    let n = buf.len();
    let mut r: Vec<u8> = Vec::new();
    let mut i: usize = 0;
    while i < n && buf[i] != 0
        invariant
            i <= n,
            n == buf@.len(),
            r@ == buf@.take(i as int),
            forall|k: int| 0 <= k < i ==> buf@[k] != 0,
        decreases n - i,
    {
        r.push(buf[i]);
        proof {
            assert(r@ =~= buf@.take(i + 1));
        }
        i += 1;
    }
    proof {
        lemma_first_nul_at(buf@, i as int);
    }
    r
}

/// Index of the first `=` in a line, or the line's length if there is none.
pub open spec fn first_eq(line: Seq<char>) -> int
    decreases line.len(),
{
    if line.len() == 0 { 0 }
    else if line[0] == '=' { 0 }
    else { 1 + first_eq(line.drop_first()) }
}

/// When everything before `j` is not `=` and `j` is the end or an `=`, the
/// first `=` is at `j`.
proof fn lemma_first_eq_at(line: Seq<char>, j: int)
    requires
        0 <= j <= line.len(),
        forall|k: int| 0 <= k < j ==> line[k] != '=',
        j < line.len() ==> line[j] == '=',
    ensures
        first_eq(line) == j,
    decreases j,
{
    if j > 0 {
        assert(line[0] != '=');
        assert forall|k: int| 0 <= k < j - 1 implies line.drop_first()[k] != '=' by {
            assert(line.drop_first()[k] == line[k + 1]);
        }
        if j < line.len() {
            assert(line.drop_first()[j - 1] == line[j]);
        }
        lemma_first_eq_at(line.drop_first(), j - 1);
    }
}

/// Whether the line is a `key=value` assignment of exactly this key.
pub open spec fn line_has_key(line: Seq<char>, key: Seq<char>) -> bool {
    first_eq(line) < line.len() && line.take(first_eq(line)) == key
}

/// Everything after the first `=` of a line.
pub open spec fn line_value(line: Seq<char>) -> Seq<char> {
    line.skip(first_eq(line) + 1)
}

/// The release-file scan from position `i`, with the current line
/// accumulated in `line` and the last-seen NAME and VERSION values. A
/// PRETTY_NAME line answers immediately; otherwise the scan ends with
/// "NAME VERSION" from the last assignments seen.
pub open spec fn os_release_scan(
    s: Seq<char>,
    i: int,
    line: Seq<char>,
    name: Seq<char>,
    version: Seq<char>,
) -> Seq<char>
    decreases s.len() - i when 0 <= i <= s.len()
{
    if i >= s.len() {
        if line_has_key(line, "PRETTY_NAME"@) {
            line_value(line)
        } else {
            let name2 = if line_has_key(line, "NAME"@) { line_value(line) } else { name };
            let version2 = if line_has_key(line, "VERSION"@) { line_value(line) } else { version };
            name2 + seq![' '] + version2
        }
    } else if s[i] == '\n' {
        if line_has_key(line, "PRETTY_NAME"@) {
            line_value(line)
        } else {
            let name2 = if line_has_key(line, "NAME"@) { line_value(line) } else { name };
            let version2 = if line_has_key(line, "VERSION"@) { line_value(line) } else { version };
            os_release_scan(s, i + 1, Seq::empty(), name2, version2)
        }
    } else {
        os_release_scan(s, i + 1, line.push(s[i]), name, version)
    }
}

/// The human-readable product name taken from a release file: the first
/// PRETTY_NAME value, or else the last NAME and VERSION values joined by a
/// space.
pub open spec fn os_release_text(s: Seq<char>) -> Seq<char> {
    os_release_scan(s, 0, Seq::empty(), Seq::empty(), Seq::empty())
}

/// The three release-file keys differ from one another.
proof fn lemma_keys_distinct()
    ensures
        "NAME"@ != "VERSION"@,
        "NAME"@ != "PRETTY_NAME"@,
        "VERSION"@ != "PRETTY_NAME"@,
{
    reveal_strlit("NAME");
    reveal_strlit("VERSION");
    reveal_strlit("PRETTY_NAME");
    assert("NAME"@.len() == 4);
    assert("VERSION"@.len() == 7);
    assert("PRETTY_NAME"@.len() == 11);
}

/// Splits one line at its first `=` into key and value, or reports that the
/// line holds no `=`.
fn split_line(line: &str) -> (r: Option<(String, String)>)
    ensures
        match r {
            Some(kv) => first_eq(line@) < line@.len() && kv.0@ == line@.take(first_eq(line@))
                && kv.1@ == line_value(line@),
            None => first_eq(line@) >= line@.len(),
        },
{
    let n = line.unicode_len();
    let mut j: usize = 0;
    while j < n
        invariant
            j <= n,
            n == line@.len(),
            forall|k: int| 0 <= k < j ==> line@[k] != '=',
        decreases n - j,
    {
        if line.get_char(j) == '=' {
            proof {
                lemma_first_eq_at(line@, j as int);
            }
            let k = line.substring_char(0, j).to_owned();
            let v = line.substring_char(j + 1, n).to_owned();
            proof {
                assert(v@ =~= line_value(line@));
            }
            return Some((k, v));
        }
        j += 1;
    }
    proof {
        lemma_first_eq_at(line@, n as int);
    }
    None
}

/// Parses a release file's text for the human-readable product name: the
/// first PRETTY_NAME value wins; otherwise the last NAME and VERSION values
/// are joined by a space.
pub fn parse_os_release(text: &str) -> (r: String)
    ensures
        r@ == os_release_text(text@),
{
    let n = text.unicode_len();
    let mut name = String::new();
    let mut version = String::new();
    let mut start: usize = 0;
    let mut i: usize = 0;
    proof {
        assert(text@.subrange(0, 0) =~= Seq::<char>::empty());
    }
    while i < n
        invariant
            start <= i <= n,
            n == text@.len(),
            os_release_scan(
                text@,
                i as int,
                text@.subrange(start as int, i as int),
                name@,
                version@,
            ) == os_release_text(text@),
        decreases n - i,
    {
        let ghost prev_line = text@.subrange(start as int, i as int);
        let ghost prev_name = name@;
        let ghost prev_version = version@;
        let c = text.get_char(i);
        if c == '\n' {
            let line = text.substring_char(start, i);
            proof {
                lemma_keys_distinct();
            }
            match split_line(line) {
                Some(kv) => {
                    let (k, v) = kv;
                    if k == "PRETTY_NAME".to_owned() {
                        proof {
                            assert(line_has_key(prev_line, "PRETTY_NAME"@));
                            assert(os_release_scan(
                                text@,
                                i as int,
                                prev_line,
                                prev_name,
                                prev_version,
                            ) == line_value(prev_line));
                        }
                        return v;
                    } else if k == "NAME".to_owned() {
                        name = v;
                    } else if k == "VERSION".to_owned() {
                        version = v;
                    }
                },
                None => {},
            }
            start = i + 1;
            proof {
                assert(!line_has_key(prev_line, "PRETTY_NAME"@));
                assert(name@ == if line_has_key(prev_line, "NAME"@) {
                    line_value(prev_line)
                } else {
                    prev_name
                });
                assert(version@ == if line_has_key(prev_line, "VERSION"@) {
                    line_value(prev_line)
                } else {
                    prev_version
                });
                assert(text@.subrange(i + 1, i + 1) =~= Seq::<char>::empty());
                assert(os_release_scan(text@, i as int, prev_line, prev_name, prev_version)
                    == os_release_scan(text@, i + 1, text@.subrange(i + 1, i + 1), name@, version@));
            }
        } else {
            proof {
                assert(text@.subrange(start as int, i + 1) =~= prev_line.push(text@[i as int]));
                assert(os_release_scan(text@, i as int, prev_line, prev_name, prev_version)
                    == os_release_scan(
                    text@,
                    i + 1,
                    text@.subrange(start as int, i + 1),
                    name@,
                    version@,
                ));
            }
        }
        i += 1;
    }
    let ghost fin_line = text@.subrange(start as int, n as int);
    let ghost fin_name = name@;
    let ghost fin_version = version@;
    let line = text.substring_char(start, n);
    proof {
        lemma_keys_distinct();
    }
    match split_line(line) {
        Some(kv) => {
            let (k, v) = kv;
            if k == "PRETTY_NAME".to_owned() {
                proof {
                    assert(line_has_key(fin_line, "PRETTY_NAME"@));
                    assert(os_release_scan(text@, n as int, fin_line, fin_name, fin_version)
                        == line_value(fin_line));
                }
                return v;
            } else if k == "NAME".to_owned() {
                name = v;
            } else if k == "VERSION".to_owned() {
                version = v;
            }
        },
        None => {},
    }
    proof {
        reveal_strlit(" ");
        assert(!line_has_key(fin_line, "PRETTY_NAME"@));
        assert(name@ == if line_has_key(fin_line, "NAME"@) {
            line_value(fin_line)
        } else {
            fin_name
        });
        assert(version@ == if line_has_key(fin_line, "VERSION"@) {
            line_value(fin_line)
        } else {
            fin_version
        });
        assert(os_release_scan(text@, n as int, fin_line, fin_name, fin_version)
            == name@ + seq![' '] + version@);
    }
    let ghost nm2 = name@;
    let ghost vr2 = version@;
    let mut out = name;
    out.append(" ");
    out.append(version.as_str());
    proof {
        assert(out@ =~= nm2 + seq![' '] + vr2);
        assert(out@ == os_release_text(text@));
    }
    out
}

/// The product-name string for a host whose OS version was read as a bare
/// version string: the platform word followed by the version.
pub fn macos_system_name(version: &str) -> (r: String)
    ensures
        r@ == "Macos "@ + version@,
{
    let mut s = String::from_str("Macos ");
    s.append(version);
    s
}

} // verus!
