use vstd::prelude::*;

verus! {

/// `256` to the power `n`.
pub open spec fn byte_limit(n: nat) -> nat
    decreases n,
{
    if n == 0 {
        1
    } else {
        byte_limit((n - 1) as nat) * 256
    }
}

/// The big-endian number that `b` spells.
pub open spec fn be_value(b: Seq<u8>) -> nat
    decreases b.len(),
{
    if b.len() == 0 {
        0
    } else {
        be_value(b.drop_last()) * 256 + b.last() as nat
    }
}

/// The `n` big-endian bytes of `v`, dropping what does not fit.
pub open spec fn be_bytes(v: nat, n: nat) -> Seq<u8>
    decreases n,
{
    if n == 0 {
        Seq::empty()
    } else {
        be_bytes(v / 256, (n - 1) as nat).push((v % 256) as u8)
    }
}

/// The bytes of one resource in a package: the name's length in four
/// bytes, the name, the data's length in eight bytes, the data.
pub open spec fn entry_bytes(name: Seq<u8>, data: Seq<u8>) -> Seq<u8> {
    be_bytes(name.len(), 4) + name + be_bytes(data.len(), 8) + data
}

/// The entries of a package, one after another.
pub open spec fn body_bytes(entries: Seq<(Seq<u8>, Seq<u8>)>) -> Seq<u8>
    decreases entries.len(),
{
    if entries.len() == 0 {
        Seq::empty()
    } else {
        entry_bytes(entries[0].0, entries[0].1) + body_bytes(entries.drop_first())
    }
}

/// Adding an entry at the end adds its bytes at the end.
proof fn lemma_body_push(entries: Seq<(Seq<u8>, Seq<u8>)>, e: (Seq<u8>, Seq<u8>))
    ensures
        body_bytes(entries.push(e)) == body_bytes(entries) + entry_bytes(e.0, e.1),
    decreases entries.len(),
{
    if entries.len() == 0 {
        let p = entries.push(e);
        assert(p.drop_first() =~= Seq::<(Seq<u8>, Seq<u8>)>::empty());
        assert(p[0] == e);
        assert(body_bytes(p.drop_first()) == Seq::<u8>::empty());
        assert(body_bytes(p) == entry_bytes(e.0, e.1) + Seq::<u8>::empty());
        assert(body_bytes(p) =~= body_bytes(entries) + entry_bytes(e.0, e.1));
    } else {
        lemma_body_push(entries.drop_first(), e);
        let p = entries.push(e);
        assert(p.drop_first() =~= entries.drop_first().push(e));
        assert(p[0] == entries[0]);
        let head = entry_bytes(entries[0].0, entries[0].1);
        assert(body_bytes(p) == head + body_bytes(p.drop_first()));
        assert(body_bytes(p) == head + (body_bytes(entries.drop_first()) + entry_bytes(e.0, e.1)));
        assert(body_bytes(entries) == head + body_bytes(entries.drop_first()));
        assert(body_bytes(p) =~= body_bytes(entries) + entry_bytes(e.0, e.1));
    }
}

/// A resource package: the entries, then their count in four bytes, then
/// the length of the whole package, these twelve bytes included, in eight.
pub open spec fn package_bytes(entries: Seq<(Seq<u8>, Seq<u8>)>) -> Seq<u8> {
    let body = body_bytes(entries);
    body + be_bytes(entries.len(), 4) + be_bytes(body.len() + 12, 8)
}

/// Whether every entry, the count and the package length fit their fields.
pub open spec fn encodable(entries: Seq<(Seq<u8>, Seq<u8>)>) -> bool {
    &&& entries.len() < byte_limit(4)
    &&& forall|i: int| 0 <= i < entries.len() ==> #[trigger] entries[i].0.len() < byte_limit(4)
    &&& body_bytes(entries).len() + 12 < byte_limit(8)
}

/// Bytes `b` spell `v` back.
pub proof fn lemma_be_round_trip(v: nat, n: nat)
    requires
        v < byte_limit(n),
    ensures
        be_bytes(v, n).len() == n,
        be_value(be_bytes(v, n)) == v,
    decreases n,
{
    if n > 0 {
        let q = v / 256;
        assert(q < byte_limit((n - 1) as nat)) by {
            vstd::arithmetic::div_mod::lemma_fundamental_div_mod(v as int, 256);
            vstd::arithmetic::div_mod::lemma_mod_pos_bound(v as int, 256);
            let l = byte_limit((n - 1) as nat) as int;
            assert(q < l) by (nonlinear_arith)
                requires v == 256 * q + v % 256, 0 <= v % 256, v < l * 256, q >= 0;
        }
        lemma_be_round_trip(q, (n - 1) as nat);
        let b = be_bytes(v, n);
        assert(b.drop_last() == be_bytes(q, (n - 1) as nat));
        vstd::arithmetic::div_mod::lemma_fundamental_div_mod(v as int, 256);
    }
}

/// A number spelled in `n` bytes is less than `256` to the `n`.
pub proof fn lemma_be_value_bound(b: Seq<u8>)
    ensures
        be_value(b) < byte_limit(b.len()),
    decreases b.len(),
{
    if b.len() > 0 {
        lemma_be_value_bound(b.drop_last());
        let a = be_value(b.drop_last());
        let l = byte_limit(b.drop_last().len());
        let c = b.last() as nat;
        assert(a * 256 + c < l * 256) by (nonlinear_arith)
            requires a < l, c < 256;
    }
}

/// Reads the big-endian number in `data[at..at + n]`.
fn read_be(data: &[u8], at: usize, n: usize) -> (r: u64)
    requires
        n <= 8,
        at + n <= data@.len(),
    ensures
        r as nat == be_value(data@.subrange(at as int, at + n)),
{
    proof {
        reveal_with_fuel(byte_limit, 9);
    }
    let len = data.len();
    let mut acc: u64 = 0;
    let mut i: usize = 0;
    while i < n
        invariant
            n <= 8,
            len == data@.len(),
            at + n <= data@.len(),
            i <= n,
            acc as nat == be_value(data@.subrange(at as int, at + i)),
            acc < byte_limit(i as nat),
        decreases n - i,
    {
        proof {
            let s = data@.subrange(at as int, at + i + 1);
            assert(s.drop_last() =~= data@.subrange(at as int, at + i));
            reveal_with_fuel(byte_limit, 9);
            assert(byte_limit(i as nat) <= 0x100000000000000) by {
                if i == 0 {} else if i == 1 {} else if i == 2 {} else if i == 3 {}
                else if i == 4 {} else if i == 5 {} else if i == 6 {} else {}
            }
            assert(be_value(s) == be_value(s.drop_last()) * 256 + s.last() as nat);
        }
        acc = acc * 256 + data[at + i] as u64;
        i += 1;
    }
    acc
}

/// Appends the `n` big-endian bytes of `v`.
fn write_be(out: &mut Vec<u8>, v: u64, n: usize)
    requires
        n <= 8,
    ensures
        final(out)@ == old(out)@ + be_bytes(v as nat, n as nat),
{
    let start = out.len();
    let mut i: usize = 0;
    while i < n
        invariant
            out@.len() == start + i,
            out@.subrange(0, start as int) == old(out)@,
            i <= n,
            start == old(out)@.len(),
        decreases n - i,
    {
        out.push(0);
        i += 1;
    }
    let end = out.len();
    let mut x: u64 = v;
    let mut j: usize = n;
    while j > 0
        invariant
            j <= n,
            end == start + n,
            out@.len() == start + n,
            out@.subrange(0, start as int) == old(out)@,
            start == old(out)@.len(),
            be_bytes(v as nat, n as nat) == be_bytes(x as nat, j as nat) + out@.subrange(
                start + j,
                start + n,
            ),
        decreases j,
    {
        let ghost tail = out@.subrange(start + j, start + n);
        j -= 1;
        out.set(start + j, (x % 256) as u8);
        proof {
            assert(out@.subrange(0, start as int) =~= old(out)@);
            assert(out@.subrange(start + j, start + n) =~= seq![(x % 256) as u8] + tail);
            assert(be_bytes(x as nat, (j + 1) as nat) == be_bytes((x / 256) as nat, j as nat).push(
                (x % 256) as u8,
            ));
            assert(be_bytes((x / 256) as nat, j as nat).push((x % 256) as u8) + tail =~= be_bytes(
                (x / 256) as nat,
                j as nat,
            ) + (seq![(x % 256) as u8] + tail));
        }
        x = x / 256;
    }
    proof {
        assert(be_bytes(x as nat, 0) =~= Seq::<u8>::empty());
        assert(out@ =~= out@.subrange(0, start as int) + out@.subrange(start as int, start + n));
    }
}

/// Appends the bytes of `src`.
fn append_bytes(out: &mut Vec<u8>, src: &[u8])
    ensures
        final(out)@ == old(out)@ + src@,
{
    let mut i: usize = 0;
    while i < src.len()
        invariant
            i <= src@.len(),
            out@ == old(out)@ + src@.subrange(0, i as int),
        decreases src@.len() - i,
    {
        out.push(src[i]);
        assert(src@.subrange(0, i + 1) =~= src@.subrange(0, i as int).push(src@[i as int]));
        i += 1;
    }
    assert(src@.subrange(0, src@.len() as int) =~= src@);
}

/// The package of `entries`, each a name's bytes and the resource's bytes,
/// or `None` where a name, the count or the package is too long for its
/// field.
pub fn encode_package(entries: &Vec<(Vec<u8>, Vec<u8>)>) -> (r: Option<Vec<u8>>)
    ensures
        ({
            let e = entries@.map_values(|p: (Vec<u8>, Vec<u8>)| (p.0@, p.1@));
            match r {
                Some(bytes) => encodable(e) && bytes@ == package_bytes(e),
                None => !encodable(e),
            }
        }),
{
    let ghost e = entries@.map_values(|p: (Vec<u8>, Vec<u8>)| (p.0@, p.1@));
    proof {
        reveal_with_fuel(byte_limit, 9);
    }
    if entries.len() > 0xffff_ffff {
        return None;
    }
    let mut out: Vec<u8> = Vec::new();
    let mut i: usize = 0;
    while i < entries.len()
        invariant
            e == entries@.map_values(|p: (Vec<u8>, Vec<u8>)| (p.0@, p.1@)),
            i <= entries@.len(),
            out@ == body_bytes(e.take(i as int)),
            forall|k: int| 0 <= k < i ==> #[trigger] e[k].0.len() < byte_limit(4),
            byte_limit(4) == 0x1_0000_0000,
            byte_limit(8) == 0x1_0000_0000_0000_0000,
        decreases entries@.len() - i,
    {
        let name = &entries[i].0;
        let data = &entries[i].1;
        if name.len() > 0xffff_ffff {
            proof {
                assert(e[i as int].0.len() >= byte_limit(4));
            }
            return None;
        }
        let ghost before = out@;
        write_be(&mut out, name.len() as u64, 4);
        append_bytes(&mut out, name.as_slice());
        write_be(&mut out, data.len() as u64, 8);
        append_bytes(&mut out, data.as_slice());
        proof {
            assert(e.take(i + 1) =~= e.take(i as int).push((name@, data@)));
            lemma_body_push(e.take(i as int), (name@, data@));
            assert(out@ =~= before + entry_bytes(name@, data@));
        }
        i += 1;
    }
    proof {
        assert(e.take(entries@.len() as int) =~= e);
    }
    let body_len = out.len() as u64;
    if body_len > 0xffff_ffff_ffff_fff3 {
        return None;
    }
    let total = body_len + 12;
    write_be(&mut out, entries.len() as u64, 4);
    write_be(&mut out, total, 8);
    Some(out)
}

/// `found` followed by the entries of `rest`, where `rest` has some.
pub open spec fn prepend(
    found: Seq<(Seq<u8>, Seq<u8>)>,
    rest: Option<Seq<(Seq<u8>, Seq<u8>)>>,
) -> Option<Seq<(Seq<u8>, Seq<u8>)>> {
    match rest {
        Some(es) => Some(found + es),
        None => None,
    }
}

/// The first `count` entries laid end to end from the start of `body`,
/// each wholly inside it; `None` where one does not fit.
pub open spec fn walk(body: Seq<u8>, count: nat) -> Option<Seq<(Seq<u8>, Seq<u8>)>>
    decreases count,
{
    if count == 0 {
        Some(Seq::empty())
    } else if body.len() < 4 {
        None
    } else {
        let nl = be_value(body.subrange(0, 4)) as int;
        if 12 + nl > body.len() {
            None
        } else {
            let dl = be_value(body.subrange(4 + nl, 12 + nl)) as int;
            if 12 + nl + dl > body.len() {
                None
            } else {
                let entry = (body.subrange(4, 4 + nl), body.subrange(12 + nl, 12 + nl + dl));
                prepend(seq![entry], walk(body.subrange(12 + nl + dl, body.len() as int), (count - 1) as nat))
            }
        }
    }
}

/// The entries of the package at the end of `data`: its last eight bytes
/// give the package's length, the four before them the number of entries,
/// which are read from the package's start and must lie before those twelve
/// bytes; `None` where that fails.
pub open spec fn parsed_entries(data: Seq<u8>) -> Option<Seq<(Seq<u8>, Seq<u8>)>> {
    if data.len() < 12 {
        None
    } else {
        let total = be_value(data.subrange(data.len() - 8, data.len() as int)) as int;
        let count = be_value(data.subrange(data.len() - 12, data.len() - 8));
        if total < 12 || total > data.len() {
            None
        } else {
            walk(data.subrange(data.len() - total, data.len() - 12), count)
        }
    }
}

/// A copy of `data[from..to]`.
pub(crate) fn copy_range(data: &[u8], from: usize, to: usize) -> (r: Vec<u8>)
    requires
        from <= to <= data@.len(),
    ensures
        r@ == data@.subrange(from as int, to as int),
{
    let mut r: Vec<u8> = Vec::new();
    let mut i: usize = from;
    while i < to
        invariant
            from <= i <= to,
            to <= data@.len(),
            r@ == data@.subrange(from as int, i as int),
        decreases to - i,
    {
        r.push(data[i]);
        assert(data@.subrange(from as int, i + 1) =~= data@.subrange(from as int, i as int).push(data@[i as int]));
        i += 1;
    }
    r
}

/// The entries of the package at the end of `data`, each a name's bytes
/// and the resource's bytes, as `parsed_entries` describes them.
pub fn parse_package(data: &[u8]) -> (r: Option<Vec<(Vec<u8>, Vec<u8>)>>)
    ensures
        match r {
            Some(es) => parsed_entries(data@) == Some(es@.map_values(|p: (Vec<u8>, Vec<u8>)| (p.0@, p.1@))),
            None => parsed_entries(data@) is None,
        },
{
    let len = data.len();
    if len < 12 {
        return None;
    }
    let total = read_be(data, len - 8, 8);
    let count = read_be(data, len - 12, 4);
    if total < 12 || total > len as u64 {
        return None;
    }
    let start = len - total as usize;
    let end = len - 12;
    let ghost body = data@.subrange(start as int, end as int);
    let mut found: Vec<(Vec<u8>, Vec<u8>)> = Vec::new();
    let mut pos: usize = start;
    let mut k: u64 = 0;
    proof {
        assert(data@.subrange(start as int, end as int) =~= body);
        assert(found@.map_values(|p: (Vec<u8>, Vec<u8>)| (p.0@, p.1@)) =~= Seq::<(Seq<u8>, Seq<u8>)>::empty());
        assert(prepend(Seq::empty(), walk(body, count as nat)) =~= walk(body, count as nat)) by {
            match walk(body, count as nat) {
                Some(es) => { assert(Seq::<(Seq<u8>, Seq<u8>)>::empty() + es =~= es); },
                None => {},
            }
        }
    }
    while k < count
        invariant
            len == data@.len(),
            end + 12 == len,
            start <= pos <= end,
            k <= count,
            body == data@.subrange(start as int, end as int),
            parsed_entries(data@) == walk(body, count as nat),
            walk(body, count as nat) == prepend(
                found@.map_values(|p: (Vec<u8>, Vec<u8>)| (p.0@, p.1@)),
                walk(data@.subrange(pos as int, end as int), (count - k) as nat),
            ),
        decreases count - k,
    {
        let ghost rest = data@.subrange(pos as int, end as int);
        let ghost fv = found@.map_values(|p: (Vec<u8>, Vec<u8>)| (p.0@, p.1@));
        let remaining = end - pos;
        if remaining < 4 {
            return None;
        }
        assert(rest.subrange(0, 4) =~= data@.subrange(pos as int, pos + 4));
        let nl = read_be(data, pos, 4);
        if remaining < 12 || nl > (remaining - 12) as u64 {
            return None;
        }
        let nl = nl as usize;
        assert(rest.subrange(4 + nl, 12 + nl) =~= data@.subrange(pos + 4 + nl, pos + 12 + nl));
        let dl = read_be(data, pos + 4 + nl, 8);
        if dl > (remaining - 12 - nl) as u64 {
            return None;
        }
        let dl = dl as usize;
        let name = copy_range(data, pos + 4, pos + 4 + nl);
        let value = copy_range(data, pos + 12 + nl, pos + 12 + nl + dl);
        proof {
            assert(rest.subrange(4, 4 + nl) =~= name@);
            assert(rest.subrange(12 + nl, 12 + nl + dl) =~= value@);
            assert(rest.subrange(12 + nl + dl, rest.len() as int) =~= data@.subrange(
                pos + 12 + nl + dl,
                end as int,
            ));
        }
        found.push((name, value));
        proof {
            let fv2 = found@.map_values(|p: (Vec<u8>, Vec<u8>)| (p.0@, p.1@));
            assert(fv2 =~= fv + seq![(name@, value@)]);
            let tail = walk(data@.subrange(pos + 12 + nl + dl, end as int), (count - k - 1) as nat);
            match tail {
                Some(es) => {
                    assert(fv + (seq![(name@, value@)] + es) =~= fv2 + es);
                },
                None => {},
            }
        }
        pos = pos + 12 + nl + dl;
        k += 1;
    }
    proof {
        assert(walk(data@.subrange(pos as int, end as int), 0) == Some(Seq::<(Seq<u8>, Seq<u8>)>::empty()));
        assert(found@.map_values(|p: (Vec<u8>, Vec<u8>)| (p.0@, p.1@)) + Seq::<(Seq<u8>, Seq<u8>)>::empty()
            =~= found@.map_values(|p: (Vec<u8>, Vec<u8>)| (p.0@, p.1@)));
    }
    Some(found)
}

/// Where the fields of an entry lie when other bytes follow it.
proof fn lemma_entry_fields(name: Seq<u8>, data: Seq<u8>, tail: Seq<u8>)
    requires
        name.len() < byte_limit(4),
        data.len() < byte_limit(8),
    ensures
        ({
            let b = entry_bytes(name, data) + tail;
            let n = name.len() as int;
            let d = data.len() as int;
            &&& b.len() == 12 + n + d + tail.len()
            &&& be_value(b.subrange(0, 4)) == n
            &&& be_value(b.subrange(4 + n, 12 + n)) == d
            &&& b.subrange(4, 4 + n) == name
            &&& b.subrange(12 + n, 12 + n + d) == data
            &&& b.subrange(12 + n + d, b.len() as int) == tail
        }),
{
    lemma_be_round_trip(name.len(), 4);
    lemma_be_round_trip(data.len(), 8);
    let b = entry_bytes(name, data) + tail;
    let n = name.len() as int;
    let d = data.len() as int;
    assert(b.subrange(0, 4) =~= be_bytes(name.len(), 4));
    assert(b.subrange(4 + n, 12 + n) =~= be_bytes(data.len(), 8));
    assert(b.subrange(4, 4 + n) =~= name);
    assert(b.subrange(12 + n, 12 + n + d) =~= data);
    assert(b.subrange(12 + n + d, b.len() as int) =~= tail);
}

/// Walking the bytes of a list of entries gives the entries back.
proof fn lemma_walk_body(e: Seq<(Seq<u8>, Seq<u8>)>)
    requires
        forall|i: int| 0 <= i < e.len() ==> #[trigger] e[i].0.len() < byte_limit(4),
        body_bytes(e).len() < byte_limit(8),
    ensures
        walk(body_bytes(e), e.len()) == Some(e),
    decreases e.len(),
{
    if e.len() == 0 {
        assert(e =~= Seq::<(Seq<u8>, Seq<u8>)>::empty());
    } else {
        let rest = e.drop_first();
        let name = e[0].0;
        let data = e[0].1;
        let body = body_bytes(e);
        assert(body == entry_bytes(name, data) + body_bytes(rest));
        assert forall|i: int| 0 <= i < rest.len() implies #[trigger] rest[i].0.len() < byte_limit(4) by {
            assert(rest[i] == e[i + 1]);
        }
        assert(data.len() < byte_limit(8));
        lemma_entry_fields(name, data, body_bytes(rest));
        lemma_walk_body(rest);
        assert(seq![(name, data)] + rest =~= e);
    }
}

/// A package appended to any bytes reads back as the entries it was made
/// from.
pub proof fn lemma_package_round_trip(prefix: Seq<u8>, entries: Seq<(Seq<u8>, Seq<u8>)>)
    requires
        encodable(entries),
    ensures
        parsed_entries(prefix + package_bytes(entries)) == Some(entries),
{
    let body = body_bytes(entries);
    let data = prefix + package_bytes(entries);
    let total = body.len() + 12;
    reveal_with_fuel(byte_limit, 9);
    lemma_be_round_trip(entries.len(), 4);
    lemma_be_round_trip(total as nat, 8);
    assert(data.subrange(data.len() - 8, data.len() as int) =~= be_bytes(total as nat, 8));
    assert(data.subrange(data.len() - 12, data.len() - 8) =~= be_bytes(entries.len(), 4));
    assert(data.subrange(data.len() - total, data.len() - 12) =~= body);
    lemma_walk_body(entries);
}

} // verus!
