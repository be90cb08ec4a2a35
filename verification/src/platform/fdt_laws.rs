//! What stands where in a device tree blob.
use vstd::prelude::*;
use vstd::utf8::encode_utf8;
use crate::bytes::{be32_bytes, zeros};
use crate::platform::fdt::{aligned, law_first_error_stays, lemma_name_index, name_index, name_offset, reserve_block, strings_block, with_name, Fdt, Flaw, FDT_BEGIN_NODE, FDT_END, FDT_END_NODE, FDT_PROP};

verus! {

/// A call that builds a tree.
pub enum Part {
    Begin(Seq<char>),
    Prop(Seq<char>, Seq<u8>),
    End,
}

/// The tree that some calls build, in order.
pub open spec fn built(parts: Seq<Part>) -> Fdt
    decreases parts.len(),
{
    if parts.len() == 0 {
        Fdt::blank()
    } else {
        let t = built(parts.drop_last());
        match parts.last() {
            Part::Begin(name) => t.begun(name),
            Part::Prop(name, v) => t.prop(name, v),
            Part::End => t.ended(),
        }
    }
}

/// The call writes a property with this name.
pub open spec fn uses(p: Part, name: Seq<u8>) -> bool {
    p matches Part::Prop(n, _) && encode_utf8(n) == name
}

/// Where the name is first used (the number of the calls if it is not).
pub open spec fn first_use(parts: Seq<Part>, name: Seq<u8>) -> nat
    decreases parts.len(),
{
    if parts.len() == 0 || uses(parts[0], name) {
        0
    } else {
        1 + first_use(parts.skip(1), name)
    }
}

/// What a call leaves in the structure block, when these are the names of the
/// strings block: a property is its token, the length of its value, the offset of
/// its name and the value, filled with zeros to a multiple of 4.
pub open spec fn part_bytes(names: Seq<Seq<u8>>, p: Part) -> Seq<u8> {
    match p {
        Part::Begin(name) => aligned(be32_bytes(FDT_BEGIN_NODE) + encode_utf8(name) + seq![0u8]),
        Part::Prop(name, v) => be32_bytes(FDT_PROP) + be32_bytes(v.len() as u32) + be32_bytes(
            name_offset(names, encode_utf8(name)),
        ) + aligned(v),
        Part::End => be32_bytes(FDT_END_NODE),
    }
}

/// The structure block: what each call leaves, one after another.
pub open spec fn structure(names: Seq<Seq<u8>>, parts: Seq<Part>) -> Seq<u8>
    decreases parts.len(),
{
    if parts.len() == 0 {
        Seq::empty()
    } else {
        structure(names, parts.drop_last()) + part_bytes(names, parts.last())
    }
}

/// Every name that the calls use, once, in the order of its first use.
pub open spec fn names_of(parts: Seq<Part>, names: Seq<Seq<u8>>) -> bool {
    &&& names.no_duplicates()
    &&& forall|b: Seq<u8>| #[trigger] names.contains(b) <==> first_use(parts, b) < parts.len()
    &&& forall|i: int, j: int|
        0 <= i < j < names.len() ==> first_use(parts, #[trigger] names[i]) < first_use(
            parts,
            #[trigger] names[j],
        )
}

proof fn lemma_first_use(parts: Seq<Part>, p: Part, b: Seq<u8>)
    ensures
        first_use(parts, b) <= parts.len(),
        first_use(parts.push(p), b) == (if first_use(parts, b) < parts.len() {
            first_use(parts, b)
        } else if uses(p, b) {
            parts.len()
        } else {
            parts.len() + 1
        }),
    decreases parts.len(),
{
    let all = parts.push(p);
    if parts.len() == 0 {
        assert(all.skip(1) =~= Seq::<Part>::empty());
        reveal_with_fuel(first_use, 2);
    } else if !uses(parts[0], b) {
        assert(all.skip(1) =~= parts.skip(1).push(p));
        lemma_first_use(parts.skip(1), p, b);
    }
}

/// A name keeps its offset when others are added after it.
proof fn lemma_offset_stays(names: Seq<Seq<u8>>, more: Seq<u8>, b: Seq<u8>)
    requires
        names.contains(b),
    ensures
        name_offset(names.push(more), b) == name_offset(names, b),
{
    lemma_name_index(names, b);
    let i = name_index(names, b);
    lemma_index_stays(names, more, b);
    assert(names.push(more).take(i as int) =~= names.take(i as int));
}

proof fn lemma_index_stays(names: Seq<Seq<u8>>, more: Seq<u8>, b: Seq<u8>)
    ensures
        name_index(names.push(more), b) == (if name_index(names, b) < names.len() {
            name_index(names, b)
        } else if more == b {
            names.len()
        } else {
            names.len() + 1
        }),
        name_index(names, b) <= names.len(),
    decreases names.len(),
{
    let all = names.push(more);
    if names.len() == 0 {
        assert(all.skip(1) =~= Seq::<Seq<u8>>::empty());
        reveal_with_fuel(name_index, 2);
    } else if names[0] != b {
        assert(all.skip(1) =~= names.skip(1).push(more));
        lemma_index_stays(names.skip(1), more, b);
    }
}

proof fn lemma_structure_stays(names: Seq<Seq<u8>>, more: Seq<u8>, parts: Seq<Part>)
    requires
        forall|b: Seq<u8>| first_use(parts, b) < parts.len() ==> #[trigger] names.contains(b),
    ensures
        structure(names.push(more), parts) == structure(names, parts),
    decreases parts.len(),
{
    if parts.len() > 0 {
        let head = parts.drop_last();
        let p = parts.last();
        assert(head.push(p) =~= parts);
        assert forall|b: Seq<u8>| first_use(head, b) < head.len() implies #[trigger] names.contains(
            b,
        ) by {
            lemma_first_use(head, p, b);
        }
        lemma_structure_stays(names, more, head);
        if let Part::Prop(n, v) = p {
            let b = encode_utf8(n);
            lemma_first_use(head, p, b);
            assert(names.contains(b));
            lemma_offset_stays(names, more, b);
        }
    }
}

proof fn lemma_names_grow(parts: Seq<Part>, p: Part, names: Seq<Seq<u8>>)
    requires
        names_of(parts, names),
    ensures
        p matches Part::Prop(n, _) ==> names_of(
            parts.push(p),
            with_name(names, encode_utf8(n)),
        ),
        !(p is Prop) ==> names_of(parts.push(p), names),
{
    let all = parts.push(p);
    let after = match p {
        Part::Prop(n, _) => with_name(names, encode_utf8(n)),
        _ => names,
    };
    if let Part::Prop(n, _) = p {
        lemma_name_index(names, encode_utf8(n));
    }
    assert forall|b: Seq<u8>| #[trigger] after.contains(b) <==> first_use(all, b) < all.len() by {
        lemma_first_use(parts, p, b);
        assert(names.contains(b) <==> first_use(parts, b) < parts.len());
        if after != names {
            assert(after[names.len() as int] == after.last());
            if names.contains(b) {
                let i = choose|i: int| 0 <= i < names.len() && names[i] == b;
                assert(after[i] == b);
            }
        }
    }
    assert forall|i: int, j: int| 0 <= i < j < after.len() implies first_use(
        all,
        #[trigger] after[i],
    ) < first_use(all, #[trigger] after[j]) by {
        lemma_first_use(parts, p, after[i]);
        lemma_first_use(parts, p, after[j]);
        assert(after[i] == names[i]);
        assert(names.contains(names[i]));
        if j < names.len() {
            assert(after[j] == names[j]);
            assert(names.contains(names[j]));
        }
    }
    assert(after.no_duplicates());
}

proof fn lemma_aligned(s: Seq<u8>, x: Seq<u8>, v: Seq<u8>)
    requires
        s.len() % 4 == 0,
        x.len() % 4 == 0,
    ensures
        aligned(s + x + v) == s + (x + aligned(v)),
        aligned(s + x + v).len() % 4 == 0,
{
    assert((s + x + v).len() % 4 == v.len() % 4);
    assert(aligned(s + x + v) =~= s + (x + aligned(v)));
}

/// A node opens behind what there is.
proof fn lemma_begin_bytes(u: Fdt, name: Seq<char>)
    requires
        u.structs.len() % 4 == 0,
    ensures
        u.begun(name).structs == u.structs + part_bytes(u.names, Part::Begin(name)),
        u.begun(name).structs.len() % 4 == 0,
        u.begun(name).names == u.names,
        u.begun(name).reserve == u.reserve,
{
    reveal(Fdt::begun);
    let e = Seq::<u8>::empty();
    let v = be32_bytes(FDT_BEGIN_NODE) + encode_utf8(name) + seq![0u8];
    lemma_aligned(u.structs, e, v);
    assert(u.structs + e + v =~= u.structs + be32_bytes(FDT_BEGIN_NODE) + encode_utf8(name)
        + seq![0u8]);
    assert(e + aligned(v) =~= aligned(v));
}

/// A property stands behind what there is.
proof fn lemma_prop_bytes(u: Fdt, name: Seq<char>, v: Seq<u8>)
    requires
        u.structs.len() % 4 == 0,
    ensures
        u.prop(name, v).structs == u.structs + part_bytes(
            u.prop(name, v).names,
            Part::Prop(name, v),
        ),
        u.prop(name, v).structs.len() % 4 == 0,
        u.prop(name, v).names == with_name(u.names, encode_utf8(name)),
        u.prop(name, v).reserve == u.reserve,
{
    reveal(Fdt::prop);
    let b = encode_utf8(name);
    let off = name_offset(u.names, b);
    let x = be32_bytes(FDT_PROP) + be32_bytes(v.len() as u32) + be32_bytes(off);
    lemma_aligned(u.structs, x, v);
    assert(u.structs + x + v =~= u.structs + be32_bytes(FDT_PROP) + be32_bytes(v.len() as u32)
        + be32_bytes(off) + v);
    lemma_name_index(u.names, b);
    if !u.names.contains(b) {
        lemma_index_stays(u.names, b, b);
        assert(u.names.push(b).take(u.names.len() as int) =~= u.names);
        assert(u.names.take(u.names.len() as int) =~= u.names);
    }
}

/// The calls before one that left no error left none.
proof fn lemma_no_error_before(parts: Seq<Part>)
    requires
        parts.len() > 0,
        built(parts).error is None,
    ensures
        built(parts.drop_last()).error is None,
        parts.last() is End ==> built(parts.drop_last()).depth > 0,
{
    let u = built(parts.drop_last());
    if u.error is Some {
        match parts.last() {
            Part::Begin(name) => law_first_error_stays(u, name, Seq::empty()),
            Part::Prop(name, v) => law_first_error_stays(u, name, v),
            Part::End => law_first_error_stays(u, Seq::empty(), Seq::empty()),
        }
    }
    reveal(Fdt::ended);
}

/// While no call has failed, the tree has its names and its structure.
proof fn lemma_built(parts: Seq<Part>)
    requires
        built(parts).error is None,
    ensures
        names_of(parts, built(parts).names),
        built(parts).structs == structure(built(parts).names, parts),
        built(parts).structs.len() % 4 == 0,
        built(parts).reserve.len() == 0,
    decreases parts.len(),
{
    let t = built(parts);
    if parts.len() == 0 {
        assert forall|b: Seq<u8>| #[trigger] t.names.contains(b) <==> first_use(parts, b)
            < parts.len() by {}
    } else {
        let head = parts.drop_last();
        let p = parts.last();
        let u = built(head);
        assert(head.push(p) =~= parts);
        lemma_no_error_before(parts);
        lemma_built(head);
        lemma_names_grow(head, p, u.names);
        match p {
            Part::Begin(name) => lemma_begin_bytes(u, name),
            Part::Prop(name, v) => {
                lemma_prop_bytes(u, name, v);
                let b = encode_utf8(name);
                lemma_name_index(u.names, b);
                if !u.names.contains(b) {
                    lemma_structure_stays(u.names, b, head);
                }
            },
            Part::End => {
                reveal(Fdt::ended);
            },
        }
    }
}

/// A name stands in the strings block at its offset, with its NUL.
proof fn lemma_name_stands(names: Seq<Seq<u8>>, i: int)
    requires
        0 <= i < names.len(),
    ensures
        ({
            let off = strings_block(names.take(i)).len() as int;
            &&& off + names[i].len() + 1 <= strings_block(names).len()
            &&& strings_block(names).subrange(off, off + names[i].len() + 1) == names[i].push(0u8)
        }),
    decreases names.len(),
{
    let all = strings_block(names);
    let head = names.drop_last();
    let off = strings_block(names.take(i)).len() as int;
    assert(all == strings_block(head) + names.last() + seq![0u8]);
    if i == names.len() - 1 {
        assert(names.take(i) =~= head);
        assert(all.subrange(off, off + names[i].len() + 1) =~= names[i].push(0u8));
    } else {
        assert(head.take(i) =~= names.take(i));
        lemma_name_stands(head, i);
        assert(all.subrange(off, off + names[i].len() + 1) =~= strings_block(head).subrange(
            off,
            off + names[i].len() + 1,
        ));
    }
}

/// A tree that is finished without an error holds, in its strings block, each
/// name of a property exactly once, with its NUL, in the order of first use; and,
/// in its structure block, what each call left, where a property carries the
/// offset of its own name.
pub proof fn law_blob_holds_the_tree(parts: Seq<Part>, out: Seq<u8>)
    requires
        built(parts).finished() == Ok::<Seq<u8>, Flaw>(out),
        strings_block(built(parts).names).len() <= u32::MAX,
    ensures
        ({
            let names = built(parts).names;
            let s = structure(names, parts);
            let strings = strings_block(names);
            let end = 56 + s.len() as int;
            &&& names_of(parts, names)
            &&& out.len() == end + 4 + strings.len()
            &&& out.subrange(56, end) == s
            &&& out.subrange(end, end + 4) == be32_bytes(FDT_END)
            &&& out.skip(end + 4) == strings
            &&& forall|k: int| #![trigger parts[k]]
                0 <= k < parts.len() ==> (parts[k] matches Part::Prop(n, _) ==> {
                    let b = encode_utf8(n);
                    let off = name_offset(names, b) as int;
                    off + b.len() + 1 <= strings.len() && strings.subrange(off, off + b.len() + 1)
                        == b.push(0u8)
                })
        }),
{
    let t = built(parts);
    let names = t.names;
    let s = structure(names, parts);
    let strings = strings_block(names);
    lemma_built(parts);
    assert(reserve_block(t.reserve.push((0, 0))).len() == 16) by {
        assert(t.reserve.push((0, 0)).drop_last() =~= Seq::<(u64, u64)>::empty());
        reveal_with_fuel(reserve_block, 2);
    }
    assert(out == t.blob());
    let end = 56 + s.len() as int;
    assert(out.subrange(56, end) =~= s);
    assert(out.subrange(end, end + 4) =~= be32_bytes(FDT_END));
    assert(out.skip(end + 4) =~= strings);
    assert forall|k: int| #![trigger parts[k]] 0 <= k < parts.len() implies (parts[k] matches Part::Prop(
        n,
        _,
    ) ==> {
        let b = encode_utf8(n);
        let off = name_offset(names, b) as int;
        off + b.len() + 1 <= strings.len() && strings.subrange(off, off + b.len() + 1) == b.push(0u8)
    }) by {
        if let Part::Prop(n, _) = parts[k] {
            let b = encode_utf8(n);
            lemma_used(parts, k, b);
            assert(names.contains(b));
            lemma_name_index(names, b);
            lemma_name_stands(names, name_index(names, b) as int);
        }
    }
}

proof fn lemma_used(parts: Seq<Part>, k: int, b: Seq<u8>)
    requires
        0 <= k < parts.len(),
        uses(parts[k], b),
    ensures
        first_use(parts, b) <= k,
    decreases parts.len(),
{
    if !uses(parts[0], b) {
        assert(parts.skip(1)[k - 1] == parts[k]);
        lemma_used(parts.skip(1), k - 1, b);
    }
}

} // verus!
