//! Textual codec for the per-artifact statistics sidecar.
//!
//! The document is line-oriented key/value text. A record serializes as
//! two lines, `usages = <u64>` and `"optimized-compression" = <i32>`,
//! each ending in a newline. Reading folds over the lines: a line that
//! binds one of the two known keys to a well-formed value sets that field
//! (a later line wins over an earlier one), every other line is ignored,
//! and the read succeeds only if both fields were seen. A truncated tail
//! therefore loses at least the second key and yields nothing.

use vstd::prelude::*;

use crate::digits::{
    fmt_i32, fmt_i32_spec, fmt_u64, fmt_u64_spec, is_digit, lemma_fmt_u64_canon,
    lemma_parse_fmt_i32, lemma_parse_fmt_u64, parse_i32, parse_i32_spec, parse_u64,
    parse_u64_spec,
};
use crate::stats::ModuleCacheStatistics;

verus! {

/// The bytes of `usages`.
pub open spec fn usages_key() -> Seq<u8> {
    seq![117u8, 115u8, 97u8, 103u8, 101u8, 115u8]
}

/// The bytes of `"optimized-compression"`, quotes included: the serialized
/// key is a fixed string with a hyphen, not an identifier.
pub open spec fn level_key() -> Seq<u8> {
    seq![
        34u8, 111u8, 112u8, 116u8, 105u8, 109u8, 105u8, 122u8, 101u8, 100u8, 45u8, 99u8,
        111u8, 109u8, 112u8, 114u8, 101u8, 115u8, 115u8, 105u8, 111u8, 110u8, 34u8,
    ]
}

/// ` = `, the separator between a key and its value.
pub open spec fn kv_sep() -> Seq<u8> {
    seq![32u8, 61u8, 32u8]
}

pub open spec fn kv_line(key: Seq<u8>, value: Seq<u8>) -> Seq<u8> {
    key + kv_sep() + value
}

/// The serialized form of a record: both fields, one per line.
pub open spec fn stats_doc(s: ModuleCacheStatistics) -> Seq<u8> {
    kv_line(usages_key(), fmt_u64_spec(s.usages as nat)) + seq![10u8] + kv_line(
        level_key(),
        fmt_i32_spec(s.compression_level as int),
    ) + seq![10u8]
}

/// Does this line bind `usages`, and to what.
pub open spec fn line_usages(line: Seq<u8>) -> Option<u64> {
    if line.len() >= 9 && line.subrange(0, 6) == usages_key() && line.subrange(6, 9)
        == kv_sep() {
        parse_u64_spec(line.subrange(9, line.len() as int))
    } else {
        None
    }
}

/// Does this line bind `"optimized-compression"`, and to what.
pub open spec fn line_level(line: Seq<u8>) -> Option<i32> {
    if line.len() >= 26 && line.subrange(0, 23) == level_key() && line.subrange(23, 26)
        == kv_sep() {
        parse_i32_spec(line.subrange(26, line.len() as int))
    } else {
        None
    }
}

/// Effect of one line on the fields gathered so far; unknown or malformed
/// lines change nothing.
pub open spec fn apply_line(acc: (Option<u64>, Option<i32>), line: Seq<u8>) -> (
    Option<u64>,
    Option<i32>,
) {
    if line_usages(line) is Some {
        (line_usages(line), acc.1)
    } else if line_level(line) is Some {
        (acc.0, line_level(line))
    } else {
        acc
    }
}

/// Fold over the document byte by byte: `cur` is the line being gathered,
/// a newline closes it, and the unterminated final line is processed too.
pub open spec fn fold_lines(s: Seq<u8>, cur: Seq<u8>, acc: (Option<u64>, Option<i32>)) -> (
    Option<u64>,
    Option<i32>,
)
    decreases s.len(),
{
    if s.len() == 0 {
        apply_line(acc, cur)
    } else if s.first() == 10 {
        fold_lines(s.drop_first(), Seq::empty(), apply_line(acc, cur))
    } else {
        fold_lines(s.drop_first(), cur.push(s.first()), acc)
    }
}

/// What reading a document yields: a record exactly when both keys were
/// bound somewhere in it.
pub open spec fn parse_stats_doc(s: Seq<u8>) -> Option<ModuleCacheStatistics> {
    let acc = fold_lines(s, Seq::empty(), (None, None));
    if acc.0 is Some && acc.1 is Some {
        Some(
            ModuleCacheStatistics {
                usages: acc.0->0,
                compression_level: acc.1->0,
            },
        )
    } else {
        None
    }
}

fn usages_key_vec() -> (r: Vec<u8>)
    ensures
        r@ == usages_key(),
{
    let mut v: Vec<u8> = Vec::new();
    v.push(117);
    v.push(115);
    v.push(97);
    v.push(103);
    v.push(101);
    v.push(115);
    proof {
        assert(v@ =~= usages_key());
    }
    v
}

fn level_key_vec() -> (r: Vec<u8>)
    ensures
        r@ == level_key(),
{
    let mut v: Vec<u8> = Vec::new();
    v.push(34);
    v.push(111);
    v.push(112);
    v.push(116);
    v.push(105);
    v.push(109);
    v.push(105);
    v.push(122);
    v.push(101);
    v.push(100);
    v.push(45);
    v.push(99);
    v.push(111);
    v.push(109);
    v.push(112);
    v.push(114);
    v.push(101);
    v.push(115);
    v.push(115);
    v.push(105);
    v.push(111);
    v.push(110);
    v.push(34);
    proof {
        assert(v@ =~= level_key());
    }
    v
}

/// If `line` is `key = value`, hand back the value bytes.
fn match_key(line: &Vec<u8>, key: &Vec<u8>) -> (r: Option<Vec<u8>>)
    ensures
        r is Some <==> (line@.len() >= key@.len() as int + 3 && line@.subrange(0, key@.len() as int)
            == key@ && line@.subrange(key@.len() as int, key@.len() as int + 3) == kv_sep()),
        r is Some ==> r->0@ == line@.subrange(key@.len() as int + 3, line@.len() as int),
{
    if line.len() < 3 || line.len() - 3 < key.len() {
        return None;
    }
    let mut i: usize = 0;
    while i < key.len()
        invariant
            0 <= i <= key@.len(),
            line@.len() >= key@.len() as int + 3,
            forall|k: int| 0 <= k < i ==> line@[k] == key@[k],
        decreases key@.len() - i,
    {
        if line[i] != key[i] {
            proof {
                assert(line@.subrange(0, key@.len() as int)[i as int] != key@[i as int]);
            }
            return None;
        }
        i += 1;
    }
    let kl = key.len();
    if line[kl] != 32 || line[kl + 1] != 61 || line[kl + 2] != 32 {
        proof {
            let sep = line@.subrange(key@.len() as int, key@.len() as int + 3);
            assert(sep[0] == line@[key@.len() as int]);
            assert(sep[1] == line@[key@.len() as int + 1]);
            assert(sep[2] == line@[key@.len() as int + 2]);
            assert(kv_sep()[0] == 32 && kv_sep()[1] == 61 && kv_sep()[2] == 32);
        }
        return None;
    }
    let mut value: Vec<u8> = Vec::new();
    let mut j: usize = kl + 3;
    while j < line.len()
        invariant
            key@.len() as int + 3 <= j <= line@.len(),
            value@ == line@.subrange(key@.len() as int + 3, j as int),
        decreases line@.len() - j,
    {
        value.push(line[j]);
        proof {
            assert(line@.subrange(key@.len() as int + 3, j + 1) =~= line@.subrange(
                key@.len() as int + 3,
                j as int,
            ).push(line@[j as int]));
        }
        j += 1;
    }
    proof {
        assert(line@.subrange(0, key@.len() as int) =~= key@);
        assert(line@.subrange(key@.len() as int, key@.len() as int + 3) =~= kv_sep());
        assert(value@ =~= line@.subrange(key@.len() as int + 3, line@.len() as int));
    }
    Some(value)
}

/// One line's effect on the gathered fields.
fn apply_line_exec(line: &Vec<u8>, acc: (Option<u64>, Option<i32>)) -> (r: (
    Option<u64>,
    Option<i32>,
))
    ensures
        r == apply_line(acc, line@),
{
    let ukey = usages_key_vec();
    match match_key(line, &ukey) {
        Some(value) => {
            proof {
                assert(ukey@.len() == 6);
            }
            match parse_u64(&value) {
                Some(n) => {
                    return (Some(n), acc.1);
                },
                None => {
                    proof {
                        assert(line_usages(line@) is None);
                        assert(line_level(line@) is None) by {
                            if line@.len() >= 26 && line@.subrange(0, 23) == level_key() {
                                assert(line@.subrange(0, 6)[0] == line@[0]);
                                assert(line@.subrange(0, 23)[0] == line@[0]);
                                assert(usages_key()[0] == 117 && level_key()[0] == 34);
                            }
                        }
                    }
                    return acc;
                },
            }
        },
        None => {},
    }
    let lkey = level_key_vec();
    match match_key(line, &lkey) {
        Some(value) => {
            proof {
                assert(lkey@.len() == 23);
                assert(line_usages(line@) is None) by {
                    if line@.len() >= 9 && line@.subrange(0, 6) == usages_key() {
                        assert(line@.subrange(0, 6)[0] == line@[0]);
                        assert(line@.subrange(0, 23)[0] == line@[0]);
                        assert(usages_key()[0] == 117 && level_key()[0] == 34);
                    }
                }
            }
            match parse_i32(&value) {
                Some(n) => {
                    return (acc.0, Some(n));
                },
                None => {
                    return acc;
                },
            }
        },
        None => {},
    }
    proof {
        assert(line_usages(line@) is None);
        assert(line_level(line@) is None);
    }
    acc
}

/// Parse the bytes of a stats file. Yields the record exactly when the
/// document binds both known keys; anything else — empty, truncated before
/// the second value, or text in another shape — yields nothing.
pub fn read_stats_bytes(bytes: &Vec<u8>) -> (r: Option<ModuleCacheStatistics>)
    ensures
        r == parse_stats_doc(bytes@),
{
    let ghost init: (Option<u64>, Option<i32>) = (None, None);
    let mut usages: Option<u64> = None;
    let mut level: Option<i32> = None;
    let mut line: Vec<u8> = Vec::new();
    let mut i: usize = 0;
    proof {
        assert(bytes@.skip(0) =~= bytes@);
        assert(line@ =~= Seq::<u8>::empty());
    }
    while i < bytes.len()
        invariant
            0 <= i <= bytes@.len(),
            fold_lines(bytes@.skip(i as int), line@, (usages, level)) == fold_lines(
                bytes@,
                Seq::empty(),
                init,
            ),
            init == (None::<u64>, None::<i32>),
        decreases bytes@.len() - i,
    {
        let b = bytes[i];
        proof {
            assert(bytes@.skip(i as int).first() == b);
            assert(bytes@.skip(i as int).drop_first() =~= bytes@.skip(i + 1));
        }
        if b == 10 {
            let r = apply_line_exec(&line, (usages, level));
            usages = r.0;
            level = r.1;
            line = Vec::new();
        } else {
            line.push(b);
        }
        i += 1;
    }
    proof {
        assert(bytes@.skip(bytes@.len() as int) =~= Seq::<u8>::empty());
    }
    let r = apply_line_exec(&line, (usages, level));
    match (r.0, r.1) {
        (Some(u), Some(l)) => Some(ModuleCacheStatistics { usages: u, compression_level: l }),
        _ => None,
    }
}

/// Serialize a record as its two-line document.
pub fn write_stats_bytes(s: &ModuleCacheStatistics) -> (r: Vec<u8>)
    ensures
        r@ == stats_doc(*s),
{
    let mut r = usages_key_vec();
    r.push(32);
    r.push(61);
    r.push(32);
    let mut u = fmt_u64(s.usages);
    r.append(&mut u);
    r.push(10);
    let mut lk = level_key_vec();
    r.append(&mut lk);
    r.push(32);
    r.push(61);
    r.push(32);
    let mut l = fmt_i32(s.compression_level);
    r.append(&mut l);
    r.push(10);
    proof {
        assert(r@ =~= stats_doc(*s));
    }
    r
}

/// Folding a newline-free line followed by a newline applies that line,
/// then goes on with the rest of the document.
proof fn lemma_fold_one_line(s: Seq<u8>, rest: Seq<u8>, cur: Seq<u8>, acc: (Option<u64>, Option<i32>))
    requires
        forall|i: int| 0 <= i < s.len() ==> s[i] != 10,
    ensures
        fold_lines(s + seq![10u8] + rest, cur, acc) == fold_lines(
            rest,
            Seq::empty(),
            apply_line(acc, cur + s),
        ),
    decreases s.len(),
{
    let whole = s + seq![10u8] + rest;
    if s.len() == 0 {
        assert(whole.first() == 10);
        assert(whole.drop_first() =~= rest);
        assert(cur + s =~= cur);
    } else {
        assert(whole.first() == s[0]);
        assert(whole.drop_first() =~= s.drop_first() + seq![10u8] + rest);
        assert forall|i: int| 0 <= i < s.drop_first().len() implies s.drop_first()[i] != 10 by {
            assert(s.drop_first()[i] == s[i + 1]);
        }
        lemma_fold_one_line(s.drop_first(), rest, cur.push(s[0]), acc);
        assert(cur.push(s[0]) + s.drop_first() =~= cur + s);
    }
}

/// Serialized lines hold no newline byte of their own.
proof fn lemma_kv_lines_no_nl(s: ModuleCacheStatistics)
    ensures
        forall|i: int|
            0 <= i < kv_line(usages_key(), fmt_u64_spec(s.usages as nat)).len()
                ==> kv_line(usages_key(), fmt_u64_spec(s.usages as nat))[i] != 10,
        forall|i: int|
            0 <= i < kv_line(level_key(), fmt_i32_spec(s.compression_level as int)).len()
                ==> kv_line(level_key(), fmt_i32_spec(s.compression_level as int))[i] != 10,
{
    lemma_fmt_u64_canon(s.usages as nat);
    let l1 = kv_line(usages_key(), fmt_u64_spec(s.usages as nat));
    assert forall|i: int| 0 <= i < l1.len() implies l1[i] != 10 by {
        if i < 6 {
            assert(l1[i] == usages_key()[i]);
        } else if i < 9 {
            assert(l1[i] == kv_sep()[i - 6]);
        } else {
            assert(l1[i] == fmt_u64_spec(s.usages as nat)[i - 9]);
            assert(is_digit(fmt_u64_spec(s.usages as nat)[i - 9]));
        }
    }
    let lvl = s.compression_level as int;
    let v = fmt_i32_spec(lvl);
    assert forall|i: int| 0 <= i < v.len() implies v[i] != 10 by {
        if lvl >= 0 {
            lemma_fmt_u64_canon(lvl as nat);
            assert(is_digit(v[i]));
        } else {
            lemma_fmt_u64_canon((-lvl) as nat);
            if i == 0 {
                assert(v[0] == 45);
            } else {
                assert(v[i] == fmt_u64_spec((-lvl) as nat)[i - 1]);
                assert(is_digit(fmt_u64_spec((-lvl) as nat)[i - 1]));
            }
        }
    }
    let l2 = kv_line(level_key(), v);
    assert forall|i: int| 0 <= i < l2.len() implies l2[i] != 10 by {
        if i < 23 {
            assert(l2[i] == level_key()[i]);
        } else if i < 26 {
            assert(l2[i] == kv_sep()[i - 23]);
        } else {
            assert(l2[i] == v[i - 26]);
        }
    }
}

/// Reading back what was written restores the record: for every record,
/// parsing its serialized document yields exactly that record.
pub proof fn lemma_stats_round_trip(s: ModuleCacheStatistics)
    ensures
        parse_stats_doc(stats_doc(s)) == Some(s),
{
    let u = fmt_u64_spec(s.usages as nat);
    let v = fmt_i32_spec(s.compression_level as int);
    let l1 = kv_line(usages_key(), u);
    let l2 = kv_line(level_key(), v);
    let doc = stats_doc(s);
    lemma_kv_lines_no_nl(s);
    assert(doc =~= l1 + seq![10u8] + (l2 + seq![10u8]));
    lemma_fold_one_line(l1, l2 + seq![10u8], Seq::empty(), (None, None));
    assert(Seq::<u8>::empty() + l1 =~= l1);
    assert(l1.subrange(0, 6) =~= usages_key());
    assert(l1.subrange(6, 9) =~= kv_sep());
    assert(l1.subrange(9, l1.len() as int) =~= u);
    lemma_parse_fmt_u64(s.usages);
    assert(line_usages(l1) == Some(s.usages));
    let acc1 = apply_line((None, None), l1);
    assert(acc1 == (Some(s.usages), None::<i32>));
    assert(l2 + seq![10u8] =~= l2 + seq![10u8] + Seq::<u8>::empty());
    lemma_fold_one_line(l2, Seq::empty(), Seq::empty(), acc1);
    assert(Seq::<u8>::empty() + l2 =~= l2);
    assert(l2.subrange(0, 23) =~= level_key());
    assert(l2.subrange(23, 26) =~= kv_sep());
    assert(l2.subrange(26, l2.len() as int) =~= v);
    lemma_parse_fmt_i32(s.compression_level);
    assert(line_level(l2) == Some(s.compression_level));
    assert(line_usages(l2) is None) by {
        if l2.len() >= 9 && l2.subrange(0, 6) == usages_key() {
            assert(l2.subrange(0, 6)[0] == l2[0]);
            assert(l2[0] == level_key()[0]);
        }
    }
    let acc2 = apply_line(acc1, l2);
    assert(acc2 == (Some(s.usages), Some(s.compression_level)));
    assert(fold_lines(Seq::<u8>::empty(), Seq::<u8>::empty(), acc2) == acc2);
}

/// An empty file never yields a record.
pub proof fn lemma_parse_empty_doc()
    ensures
        parse_stats_doc(Seq::<u8>::empty()) is None,
{
}

/// Folding a newline-free tail applies it as the final line.
proof fn lemma_fold_no_nl(s: Seq<u8>, cur: Seq<u8>, acc: (Option<u64>, Option<i32>))
    requires
        forall|i: int| 0 <= i < s.len() ==> s[i] != 10,
    ensures
        fold_lines(s, cur, acc) == apply_line(acc, cur + s),
    decreases s.len(),
{
    if s.len() == 0 {
        assert(cur + s =~= cur);
    } else {
        assert forall|i: int| 0 <= i < s.drop_first().len() implies s.drop_first()[i] != 10 by {
            assert(s.drop_first()[i] == s[i + 1]);
        }
        lemma_fold_no_nl(s.drop_first(), cur.push(s[0]), acc);
        assert(cur.push(s[0]) + s.drop_first() =~= cur + s);
    }
}

/// A prefix of a line never binds the level key to a value: either the
/// key and separator are incomplete, or the value is empty.
proof fn lemma_level_line_prefix_absent(line: Seq<u8>, head: u8)
    requires
        line.len() <= 26,
        line.len() > 0 ==> line[0] == head,
    ensures
        line_level(line) is None,
        head != 117 ==> line_usages(line) is None,
{
    if line.len() >= 26 && line.subrange(0, 23) == level_key() && line.subrange(23, 26)
        == kv_sep() {
        assert(line.subrange(26, line.len() as int) =~= Seq::<u8>::empty());
        assert(parse_i32_spec(Seq::<u8>::empty()) is None);
    }
    if head != 117 && line.len() >= 9 && line.subrange(0, 6) == usages_key() {
        assert(line.subrange(0, 6)[0] == line[0]);
        assert(usages_key()[0] == 117);
    }
}

/// A truncated file yields nothing: a serialized document cut off anywhere
/// at or before the start of its level value leaves the level key unbound,
/// so the read reports the record absent.
pub proof fn lemma_truncated_doc_is_absent(s: ModuleCacheStatistics, n: int)
    requires
        0 <= n <= stats_doc(s).len() - fmt_i32_spec(s.compression_level as int).len() - 1,
    ensures
        parse_stats_doc(stats_doc(s).subrange(0, n)) is None,
{
    let u = fmt_u64_spec(s.usages as nat);
    let v = fmt_i32_spec(s.compression_level as int);
    let l1 = kv_line(usages_key(), u);
    let l2 = kv_line(level_key(), v);
    let doc = stats_doc(s);
    let p = doc.subrange(0, n);
    lemma_kv_lines_no_nl(s);
    assert(doc =~= l1 + seq![10u8] + (l2 + seq![10u8]));
    if n <= l1.len() {
        // the cut falls inside the first line: one line, never the level
        assert(p =~= l1.subrange(0, n));
        assert forall|i: int| 0 <= i < p.len() implies p[i] != 10 by {
            assert(p[i] == l1[i]);
        }
        lemma_fold_no_nl(p, Seq::empty(), (None, None));
        assert(Seq::<u8>::empty() + p =~= p);
        if p.len() > 0 {
            assert(p[0] == l1[0]);
            assert(l1[0] == usages_key()[0]);
        }
        assert(line_level(p) is None) by {
            if p.len() >= 26 && p.subrange(0, 23) == level_key() {
                assert(p.subrange(0, 23)[0] == p[0]);
                assert(level_key()[0] == 34 && usages_key()[0] == 117);
            }
        }
    } else {
        // the cut falls inside the second line, at or before its value:
        // the first line binds the usages key, the incomplete tail binds
        // nothing, and the level stays absent
        let k = n - l1.len() - 1;
        assert(0 <= k <= 26);
        let tail = l2.subrange(0, k);
        assert(p =~= l1 + seq![10u8] + tail);
        lemma_fold_one_line(l1, tail, Seq::empty(), (None, None));
        assert(Seq::<u8>::empty() + l1 =~= l1);
        assert(l1.subrange(0, 6) =~= usages_key());
        assert(l1.subrange(6, 9) =~= kv_sep());
        assert(l1.subrange(9, l1.len() as int) =~= u);
        lemma_parse_fmt_u64(s.usages);
        let acc1 = apply_line((None, None), l1);
        assert(acc1 == (Some(s.usages), None::<i32>));
        assert forall|i: int| 0 <= i < tail.len() implies tail[i] != 10 by {
            assert(tail[i] == l2[i]);
        }
        lemma_fold_no_nl(tail, Seq::empty(), acc1);
        assert(Seq::<u8>::empty() + tail =~= tail);
        if tail.len() > 0 {
            assert(tail[0] == l2[0]);
            assert(l2[0] == level_key()[0]);
        }
        lemma_level_line_prefix_absent(tail, 34);
    }
}

} // verus!
