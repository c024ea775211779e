//! Log file naming and discovery rules. A fresh log file is named by the
//! wall-clock nanosecond timestamp with the `.kvs` extension; distinct
//! timestamps give distinct names. Directory listing and file reads stay
//! with the I/O shell; it asks the library which names are log files.

use vstd::prelude::*;
use vstd::string::StringExecFns;

verus! {

/// The decimal digit character for `d`.
pub open spec fn spec_digit_char(d: int) -> char {
    if d == 0 {
        '0'
    } else if d == 1 {
        '1'
    } else if d == 2 {
        '2'
    } else if d == 3 {
        '3'
    } else if d == 4 {
        '4'
    } else if d == 5 {
        '5'
    } else if d == 6 {
        '6'
    } else if d == 7 {
        '7'
    } else if d == 8 {
        '8'
    } else {
        '9'
    }
}

/// The decimal digits of `n`, most significant first, no leading zeroes.
pub open spec fn spec_decimal_chars(n: u64) -> Seq<char>
    decreases n,
{
    if n < 10 {
        seq![spec_digit_char(n as int)]
    } else {
        spec_decimal_chars((n / 10) as u64).push(spec_digit_char((n % 10) as int))
    }
}

/// The name of the log file made for timestamp `n`.
pub open spec fn spec_file_name(n: u64) -> Seq<char> {
    spec_decimal_chars(n) + seq!['.', 'k', 'v', 's']
}

/// The full path of that file under the directory `dir`.
pub open spec fn spec_file_path(dir: Seq<char>, n: u64) -> Seq<char> {
    dir + seq!['/'] + spec_file_name(n)
}

/// A decimal rendering holds at least one digit.
pub proof fn lemma_decimal_chars_len(n: u64)
    ensures
        spec_decimal_chars(n).len() >= 1,
    decreases n,
{
    if n >= 10 {
        lemma_decimal_chars_len((n / 10) as u64);
    }
}

/// Distinct numbers render to distinct decimal digit strings.
pub proof fn lemma_decimal_chars_injective(a: u64, b: u64)
    requires
        spec_decimal_chars(a) == spec_decimal_chars(b),
    ensures
        a == b,
    decreases a,
{
    lemma_decimal_chars_len(a);
    lemma_decimal_chars_len(b);
    if a < 10 && b < 10 {
        assert(spec_decimal_chars(a)[0] == spec_digit_char(a as int));
        assert(spec_decimal_chars(b)[0] == spec_digit_char(b as int));
    } else if a < 10 {
        lemma_decimal_chars_len((b / 10) as u64);
        assert(spec_decimal_chars(b).len() >= 2);
    } else if b < 10 {
        lemma_decimal_chars_len((a / 10) as u64);
        assert(spec_decimal_chars(a).len() >= 2);
    } else {
        let sa = spec_decimal_chars((a / 10) as u64);
        let sb = spec_decimal_chars((b / 10) as u64);
        assert(sa.push(spec_digit_char((a % 10) as int)).drop_last() =~= sa);
        assert(sb.push(spec_digit_char((b % 10) as int)).drop_last() =~= sb);
        assert(sa == sb);
        lemma_decimal_chars_injective((a / 10) as u64, (b / 10) as u64);
        assert(spec_digit_char((a % 10) as int) == spec_decimal_chars(a).last());
        assert(spec_digit_char((b % 10) as int) == spec_decimal_chars(b).last());
        assert(a % 10 == b % 10);
        assert(a == (a / 10) * 10 + a % 10);
        assert(b == (b / 10) * 10 + b % 10);
    }
}

/// Distinct timestamps name distinct log files: two calls of the naming
/// scheme in different clock ticks never collide.
pub proof fn lemma_file_names_unique(a: u64, b: u64)
    requires
        a != b,
    ensures
        spec_file_name(a) != spec_file_name(b),
{
    if spec_file_name(a) == spec_file_name(b) {
        let da = spec_decimal_chars(a);
        let db = spec_decimal_chars(b);
        let suffix = seq!['.', 'k', 'v', 's'];
        assert(da + suffix == db + suffix);
        assert((da + suffix).len() == da.len() + suffix.len());
        assert((db + suffix).len() == db.len() + suffix.len());
        assert(da.len() == db.len());
        assert(da =~= db) by {
            assert forall|i: int| 0 <= i < da.len() implies da[i] == db[i] by {
                assert(spec_file_name(a)[i] == da[i]);
                assert(spec_file_name(b)[i] == db[i]);
            }
        }
        lemma_decimal_chars_injective(a, b);
    }
}

/// The digit character for `d`, as a borrowed string.
fn digit_str(d: u64) -> (s: &'static str)
    requires
        d < 10,
    ensures
        s@ == seq![spec_digit_char(d as int)],
{
    let s: &'static str = match d {
        0 => "0",
        1 => "1",
        2 => "2",
        3 => "3",
        4 => "4",
        5 => "5",
        6 => "6",
        7 => "7",
        8 => "8",
        _ => "9",
    };
    proof {
        reveal_strlit("0");
        reveal_strlit("1");
        reveal_strlit("2");
        reveal_strlit("3");
        reveal_strlit("4");
        reveal_strlit("5");
        reveal_strlit("6");
        reveal_strlit("7");
        reveal_strlit("8");
        reveal_strlit("9");
        assert(s@ =~= seq![spec_digit_char(d as int)]);
    }
    s
}

/// Append the decimal digits of `n` to `out`.
fn push_decimal(out: &mut String, n: u64)
    ensures
        final(out)@ == old(out)@ + spec_decimal_chars(n),
    decreases n,
{
    if n >= 10 {
        push_decimal(out, n / 10);
    }
    out.append(digit_str(n % 10));
    proof {
        assert(final(out)@ =~= old(out)@ + spec_decimal_chars(n));
    }
}

/// Relies on std::time::SystemTime::now: the wall clock's nanoseconds since
/// the epoch, as one plain number. A clock reading before the epoch comes
/// out as zero and a count beyond u64 saturates, so the call never unwinds.
/// Nothing is assumed of the value; uniqueness of names needs only that
/// ticks observed in order differ, which the caller cannot know from this
/// contract and the tests exercise operationally.
#[verifier::external_body]
fn now_nanos() -> (r: u64) {
    match std::time::SystemTime::now().duration_since(std::time::UNIX_EPOCH) {
        Ok(elapsed) => u64::try_from(elapsed.as_nanos()).unwrap_or(u64::MAX),
        Err(_) => 0,
    }
}

/// The path of the log file that timestamp `nanos` names under `dir`.
pub fn log_file_path(dir: &str, nanos: u64) -> (r: String)
    ensures
        r@ == spec_file_path(dir@, nanos),
{
    let mut out = dir.to_owned();
    out.append("/");
    push_decimal(&mut out, nanos);
    out.append(".kvs");
    proof {
        reveal_strlit("/");
        reveal_strlit(".kvs");
        assert(out@ =~= spec_file_path(dir@, nanos));
    }
    out
}

/// A fresh path for a new log file under `dir`, named by the clock tick at
/// the call.
pub fn get_new_file_path(dir: &str) -> (r: String)
    ensures
        exists|n: u64| r@ == #[trigger] spec_file_path(dir@, n),
{
    let n = now_nanos();
    log_file_path(dir, n)
}

/// Lexicographic order on byte strings: the empty string comes first, and
/// otherwise the first differing byte decides.
pub open spec fn spec_bytes_lex_le(a: Seq<u8>, b: Seq<u8>) -> bool
    decreases a.len(),
{
    if a.len() == 0 {
        true
    } else if b.len() == 0 {
        false
    } else if a[0] < b[0] {
        true
    } else if a[0] > b[0] {
        false
    } else {
        spec_bytes_lex_le(a.drop_first(), b.drop_first())
    }
}

/// The age order of log file names: a shorter name is older, and names of
/// one length order lexicographically. Log names are decimal timestamps
/// (no leading zeroes) with one fixed extension, so this is the numeric
/// order of the timestamps that named them.
pub open spec fn spec_name_le(a: Seq<u8>, b: Seq<u8>) -> bool {
    a.len() < b.len() || (a.len() == b.len() && spec_bytes_lex_le(a, b))
}

proof fn lemma_lex_total(a: Seq<u8>, b: Seq<u8>)
    ensures
        spec_bytes_lex_le(a, b) || spec_bytes_lex_le(b, a),
    decreases a.len(),
{
    if a.len() != 0 && b.len() != 0 && a[0] == b[0] {
        lemma_lex_total(a.drop_first(), b.drop_first());
    }
}

proof fn lemma_lex_trans(a: Seq<u8>, b: Seq<u8>, c: Seq<u8>)
    requires
        spec_bytes_lex_le(a, b),
        spec_bytes_lex_le(b, c),
    ensures
        spec_bytes_lex_le(a, c),
    decreases a.len(),
{
    if a.len() != 0 && a[0] == b[0] && b[0] == c[0] {
        lemma_lex_trans(a.drop_first(), b.drop_first(), c.drop_first());
    }
}

proof fn lemma_name_le_total(a: Seq<u8>, b: Seq<u8>)
    ensures
        spec_name_le(a, b) || spec_name_le(b, a),
{
    if a.len() == b.len() {
        lemma_lex_total(a, b);
    }
}

proof fn lemma_name_le_trans(a: Seq<u8>, b: Seq<u8>, c: Seq<u8>)
    requires
        spec_name_le(a, b),
        spec_name_le(b, c),
    ensures
        spec_name_le(a, c),
{
    if a.len() == b.len() && b.len() == c.len() {
        lemma_lex_trans(a, b, c);
    }
}

/// Whether `a` names a log file at most as new as `b` does.
fn name_le(a: &str, b: &str) -> (r: bool)
    ensures
        r == spec_name_le(vstd::utf8::encode_utf8(a@), vstd::utf8::encode_utf8(b@)),
{
    let ab = a.as_bytes();
    let bb = b.as_bytes();
    let n = ab.len();
    if n != bb.len() {
        return n < bb.len();
    }
    proof {
        assert(ab@.skip(0) =~= ab@);
        assert(bb@.skip(0) =~= bb@);
    }
    let mut i: usize = 0;
    while i < n
        invariant
            i <= n,
            n == ab@.len(),
            n == bb@.len(),
            ab@ == vstd::utf8::encode_utf8(a@),
            bb@ == vstd::utf8::encode_utf8(b@),
            spec_bytes_lex_le(ab@, bb@) == spec_bytes_lex_le(
                ab@.skip(i as int),
                bb@.skip(i as int),
            ),
        decreases n - i,
    {
        let x = ab[i];
        let y = bb[i];
        proof {
            assert(ab@.skip(i as int)[0] == x);
            assert(bb@.skip(i as int)[0] == y);
        }
        if x < y {
            proof {
                assert(spec_bytes_lex_le(ab@.skip(i as int), bb@.skip(i as int)));
            }
            return true;
        }
        if x > y {
            proof {
                assert(!spec_bytes_lex_le(ab@.skip(i as int), bb@.skip(i as int)));
            }
            return false;
        }
        proof {
            assert(ab@.skip(i as int).drop_first() =~= ab@.skip(i + 1));
            assert(bb@.skip(i as int).drop_first() =~= bb@.skip(i + 1));
        }
        i = i + 1;
    }
    proof {
        assert(ab@.skip(n as int).len() == 0);
        assert(spec_bytes_lex_le(ab@.skip(n as int), bb@.skip(n as int)));
    }
    true
}

/// Of the listed directory entries, the name of the newest log file: the
/// largest log name in the timestamp order; `None` when no entry names a
/// log file. After a crash mid-compaction several logs can exist, and the
/// newest is the one compaction installed last.
pub fn newest_log_file(names: &Vec<String>) -> (r: Option<String>)
    ensures
        r is None ==> forall|i: int| 0 <= i < names@.len() ==> !spec_is_log_name(
            vstd::utf8::encode_utf8(names@[i]@),
        ),
        r matches Some(s) ==> {
            &&& spec_is_log_name(vstd::utf8::encode_utf8(s@))
            &&& exists|i: int| 0 <= i < names@.len() && names@[i]@ == s@
            &&& forall|i: int|
                0 <= i < names@.len() && spec_is_log_name(vstd::utf8::encode_utf8(names@[i]@))
                    ==> spec_name_le(
                    vstd::utf8::encode_utf8(names@[i]@),
                    vstd::utf8::encode_utf8(s@),
                )
        },
{
    let mut best: Option<String> = None;
    let n = names.len();
    let mut i: usize = 0;
    while i < n
        invariant
            i <= n,
            n == names@.len(),
            best is None ==> forall|j: int| 0 <= j < i ==> !spec_is_log_name(
                vstd::utf8::encode_utf8(names@[j]@),
            ),
            best matches Some(s) ==> {
                &&& spec_is_log_name(vstd::utf8::encode_utf8(s@))
                &&& exists|j: int| 0 <= j < i && names@[j]@ == s@
                &&& forall|j: int|
                    0 <= j < i && spec_is_log_name(vstd::utf8::encode_utf8(names@[j]@))
                        ==> spec_name_le(
                        vstd::utf8::encode_utf8(names@[j]@),
                        vstd::utf8::encode_utf8(s@),
                    )
            },
        decreases n - i,
    {
        let name = &names[i];
        if is_log_file(name.as_str()) {
            let take = match &best {
                None => true,
                Some(b) => name_le(b.as_str(), name.as_str()),
            };
            if take {
                proof {
                    let cb = vstd::utf8::encode_utf8(names@[i as int]@);
                    lemma_name_le_total(cb, cb);
                    match best {
                        Some(s) => {
                            let sb = vstd::utf8::encode_utf8(s@);
                            assert forall|j: int|
                                0 <= j < i && spec_is_log_name(
                                    vstd::utf8::encode_utf8(names@[j]@),
                                ) implies spec_name_le(vstd::utf8::encode_utf8(names@[j]@), cb) by {
                                lemma_name_le_trans(vstd::utf8::encode_utf8(names@[j]@), sb, cb);
                            }
                        }
                        None => {}
                    }
                }
                best = Some(name.clone());
            } else {
                proof {
                    let sb = vstd::utf8::encode_utf8(best->0@);
                    let cb = vstd::utf8::encode_utf8(names@[i as int]@);
                    lemma_name_le_total(sb, cb);
                    assert(spec_name_le(cb, sb));
                }
            }
        }
        i = i + 1;
    }
    best
}

/// Whether a file name is a log file's: its bytes end in `.kvs`.
pub open spec fn spec_is_log_name(b: Seq<u8>) -> bool {
    b.len() >= 4 && b.subrange(b.len() - 4, b.len() as int) == seq![46u8, 107u8, 118u8, 115u8]
}

/// Decides which directory entries are log files: those whose names carry
/// the `.kvs` extension.
pub fn is_log_file(name: &str) -> (r: bool)
    ensures
        r == spec_is_log_name(vstd::utf8::encode_utf8(name@)),
{
    let b = name.as_bytes();
    let n = b.len();
    if n < 4 {
        return false;
    }
    let r = b[n - 4] == 46 && b[n - 3] == 107 && b[n - 2] == 118 && b[n - 1] == 115;
    proof {
        let bs = vstd::utf8::encode_utf8(name@);
        if r {
            assert(bs.subrange(bs.len() - 4, bs.len() as int) =~= seq![46u8, 107u8, 118u8, 115u8]);
        } else {
            if bs.len() >= 4 && bs.subrange(bs.len() - 4, bs.len() as int) == seq![
                46u8,
                107u8,
                118u8,
                115u8,
            ] {
                assert(bs[bs.len() - 4] == 46 && bs[bs.len() - 3] == 107 && bs[bs.len() - 2] == 118
                    && bs[bs.len() - 1] == 115);
            }
        }
    }
    r
}

} // verus!
