//! The render nodes and heaps the server opens: for explicit sync and for
//! staging shared-memory buffers. Render nodes only: opening a primary node
//! could contend with the shell for DRM master.

use vstd::prelude::*;

verus! {

/// Whether `a` comes no later than `b` in the order of file names: byte by
/// byte, a name before those it begins.
pub open spec fn before(a: Seq<u8>, b: Seq<u8>) -> bool
    decreases a.len(),
{
    if a.len() == 0 {
        true
    } else if b.len() == 0 {
        false
    } else if a[0] == b[0] {
        before(a.drop_first(), b.drop_first())
    } else {
        a[0] < b[0]
    }
}

/// The names of `names`, as byte sequences.
pub open spec fn name_list(names: Seq<Vec<u8>>) -> Seq<Seq<u8>> {
    names.map_values(|n: Vec<u8>| n@)
}

/// Whether `n` is the name of a render node.
pub open spec fn render_name(n: Seq<u8>) -> bool {
    seq![0x72u8, 0x65, 0x6e, 0x64, 0x65, 0x72, 0x44].is_prefix_of(n)
}

/// Whether `n` holds `part`, from some position on.
pub open spec fn holds_at(n: Seq<u8>, part: Seq<u8>, at: int) -> bool {
    0 <= at && at + part.len() <= n.len() && n.subrange(at, at + part.len()) == part
}

/// "linux,cma", what the generic contiguous heap is called.
pub open spec fn generic_heap() -> Seq<u8> {
    seq![0x6cu8, 0x69, 0x6e, 0x75, 0x78, 0x2c, 0x63, 0x6d, 0x61]
}

/// Whether a heap of this name is contiguous. Such heaps are named after
/// their reserved-memory node: "linux,cma" generically, others with "cma" in
/// their name, or "reserved".
pub open spec fn contiguous_heap(n: Seq<u8>) -> bool {
    ||| exists|at: int| holds_at(n, seq![0x63u8, 0x6d, 0x61], at)
    ||| n == seq![0x72u8, 0x65, 0x73, 0x65, 0x72, 0x76, 0x65, 0x64]
}

fn comes_before(a: &Vec<u8>, b: &Vec<u8>) -> (yes: bool)
    ensures
        yes == before(a@, b@),
{
    let mut i: usize = 0;
    assert(a@.skip(0) == a@);
    assert(b@.skip(0) == b@);
    while i < a.len()
        invariant
            i <= a.len(),
            i <= b.len(),
            before(a@, b@) == before(a@.skip(i as int), b@.skip(i as int)),
        decreases a.len() - i,
    {
        proof {
            assert(a@.skip(i as int).drop_first() == a@.skip(i + 1));
            if i < b.len() {
                assert(b@.skip(i as int).drop_first() == b@.skip(i + 1));
            }
        }
        if i >= b.len() {
            return false;
        }
        if a[i] != b[i] {
            return a[i] < b[i];
        }
        i += 1;
    }
    true
}

/// Whether `n` holds the `part` at `at`.
fn is_at(n: &Vec<u8>, part: &[u8], at: usize) -> (yes: bool)
    requires
        at + part@.len() <= n@.len(),
    ensures
        yes == holds_at(n@, part@, at as int),
{
    let len: usize = part.len();
    let n_len: usize = n.len();
    let mut i: usize = 0;
    while i < len
        invariant
            i <= len,
            len == part@.len(),
            n_len == n@.len(),
            at + len <= n_len,
            n@.subrange(at as int, at + i) == part@.take(i as int),
        decreases len - i,
    {
        if n[at + i] != part[i] {
            assert(n@.subrange(at as int, at + len)[i as int] != part@[i as int]);
            return false;
        }
        assert(n@.subrange(at as int, at + i + 1) == n@.subrange(at as int, at + i).push(
            part@[i as int],
        ));
        assert(part@.take(i + 1) == part@.take(i as int).push(part@[i as int]));
        i += 1;
    }
    assert(part@.take(i as int) == part@);
    true
}

fn same(a: &Vec<u8>, b: &[u8]) -> (yes: bool)
    ensures
        yes == (a@ == b@),
{
    if a.len() != b.len() {
        return false;
    }
    let yes: bool = is_at(a, b, 0);
    assert(a@.subrange(0, b@.len() as int) == a@);
    yes
}

/// Whether `n` is the name of a render node.
pub fn is_render_node(n: &Vec<u8>) -> (yes: bool)
    ensures
        yes == render_name(n@),
        yes <==> n@.len() >= 7 && n@[0] == 0x72 && n@[1] == 0x65 && n@[2] == 0x6e && n@[3] == 0x64
            && n@[4] == 0x65 && n@[5] == 0x72 && n@[6] == 0x44,
{
    let part: [u8; 7] = [0x72, 0x65, 0x6e, 0x64, 0x65, 0x72, 0x44];
    let slice: &[u8] = &part;
    assert(slice@ == seq![0x72u8, 0x65, 0x6e, 0x64, 0x65, 0x72, 0x44]);
    if n.len() < 7 {
        return false;
    }
    let yes: bool = is_at(n, slice, 0);
    proof {
        if yes {
            assert forall|i: int| 0 <= i < 7 implies slice@[i] == n@[i] by {
                assert(n@.subrange(0, 7)[i] == slice@[i]);
            }
        } else if render_name(n@) {
            assert(n@.subrange(0, 7) == slice@);
        }
    }
    yes
}

fn is_contiguous_heap(n: &Vec<u8>) -> (yes: bool)
    ensures
        yes == contiguous_heap(n@),
{
    let cma: [u8; 3] = [0x63, 0x6d, 0x61];
    let part: &[u8] = &cma;
    assert(part@ == seq![0x63u8, 0x6d, 0x61]);
    let mut at: usize = 0;
    while at < n.len() && n.len() - at >= 3
        invariant
            at <= n.len(),
            part@ == seq![0x63u8, 0x6d, 0x61],
            forall|j: int| 0 <= j < at ==> !holds_at(n@, part@, j),
        decreases n.len() - at,
    {
        if is_at(n, part, at) {
            return true;
        }
        at += 1;
    }
    let reserved: [u8; 8] = [0x72, 0x65, 0x73, 0x65, 0x72, 0x76, 0x65, 0x64];
    let whole: &[u8] = &reserved;
    assert(whole@ == seq![0x72u8, 0x65, 0x73, 0x65, 0x72, 0x76, 0x65, 0x64]);
    same(n, whole)
}

/// Whether the heap `a` is to be had rather than `b`.
pub open spec fn preferred(a: Seq<u8>, b: Seq<u8>) -> bool {
    a == generic_heap() || (b != generic_heap() && before(a, b))
}

/// The heap to stage in: of the contiguous ones listed, the generic one, else
/// the first in order. Its index; None when no heap is contiguous.
pub fn pick_heap(names: &Vec<Vec<u8>>) -> (pick: Option<usize>)
    ensures
        match pick {
            Some(i) => i < names@.len() && contiguous_heap(names@[i as int]@) && forall|j: int|
                0 <= j < names@.len() && contiguous_heap(names@[j]@) ==> preferred(
                    names@[i as int]@,
                    (#[trigger] names@[j])@,
                ),
            None => forall|j: int|
                0 <= j < names@.len() ==> !contiguous_heap((#[trigger] names@[j])@),
        },
{
    let generic: [u8; 9] = [0x6c, 0x69, 0x6e, 0x75, 0x78, 0x2c, 0x63, 0x6d, 0x61];
    let generic_name: &[u8] = &generic;
    assert(generic_name@ == generic_heap());
    let mut pick: Option<usize> = None;
    let mut i: usize = 0;
    while i < names.len()
        invariant
            i <= names.len(),
            generic_name@ == generic_heap(),
            match pick {
                Some(p) => p < i && contiguous_heap(names@[p as int]@) && forall|j: int|
                    0 <= j < i && contiguous_heap(names@[j]@) ==> preferred(
                        names@[p as int]@,
                        (#[trigger] names@[j])@,
                    ),
                None => forall|j: int|
                    0 <= j < i ==> !contiguous_heap((#[trigger] names@[j])@),
            },
        decreases names.len() - i,
    {
        let name = &names[i];
        if is_contiguous_heap(name) {
            match pick {
                None => {
                    proof {
                        before_is_an_order(name@, name@, name@);
                    }
                    pick = Some(i);
                },
                Some(p) => {
                    let p_generic: bool = same(&names[p], generic_name);
                    let n_generic: bool = same(name, generic_name);
                    let keep: bool = p_generic || (!n_generic && comes_before(&names[p], name));
                    if !keep {
                        proof {
                            before_is_an_order(name@, names@[p as int]@, name@);
                            assert forall|j: int|
                                0 <= j <= i && contiguous_heap(names@[j]@) implies preferred(
                                name@,
                                (#[trigger] names@[j])@,
                            ) by {
                                if j < i {
                                    assert(preferred(names@[p as int]@, names@[j]@));
                                    before_is_an_order(name@, names@[p as int]@, names@[j]@);
                                } else {
                                    before_is_an_order(name@, name@, name@);
                                }
                            }
                        }
                        pick = Some(i);
                    }
                },
            }
        }
        i += 1;
    }
    pick
}

/// File names are in a total order.
pub proof fn before_is_an_order(a: Seq<u8>, b: Seq<u8>, c: Seq<u8>)
    ensures
        before(a, a),
        before(a, b) || before(b, a),
        before(a, b) && before(b, a) ==> a == b,
        before(a, b) && before(b, c) ==> before(a, c),
    decreases a.len() + b.len() + c.len(),
{
    if a.len() > 0 && b.len() > 0 && c.len() > 0 {
        before_is_an_order(a.drop_first(), b.drop_first(), c.drop_first());
        if before(a, b) && before(b, a) {
            assert(a == seq![a[0]] + a.drop_first());
            assert(b == seq![b[0]] + b.drop_first());
        }
    } else {
        if a.len() > 0 {
            before_is_an_order(a.drop_first(), Seq::empty(), Seq::empty());
        }
        if a.len() > 0 && b.len() > 0 {
            before_is_an_order(a.drop_first(), b.drop_first(), Seq::empty());
            if before(a, b) && before(b, a) {
                assert(a == seq![a[0]] + a.drop_first());
                assert(b == seq![b[0]] + b.drop_first());
            }
        }
        if before(a, b) && before(b, a) && (a.len() == 0 || b.len() == 0) {
            assert(a == b);
        }
    }
}

/// Whether `names` is in order.
pub open spec fn in_order(names: Seq<Seq<u8>>) -> bool {
    forall|i: int, j: int| 0 <= i < j < names.len() ==> before(names[i], names[j])
}

/// Put `name` in its place among `sorted`.
fn insert_in_order(sorted: &mut Vec<Vec<u8>>, name: Vec<u8>)
    requires
        in_order(name_list(old(sorted)@)),
    ensures
        in_order(name_list(final(sorted)@)),
        name_list(final(sorted)@).to_multiset() == name_list(old(sorted)@).to_multiset().insert(
            name@,
        ),
{
    let ghost all = name_list(sorted@);
    let mut at: usize = 0;
    while at < sorted.len() && comes_before(&sorted[at], &name)
        invariant
            at <= sorted.len(),
            sorted@ == old(sorted)@,
            forall|j: int| 0 <= j < at ==> before((#[trigger] sorted@[j])@, name@),
        decreases sorted.len() - at,
    {
        at += 1;
    }
    sorted.insert(at, name);
    proof {
        let now = name_list(sorted@);
        assert(now == all.insert(at as int, name@));
        vstd::seq_lib::to_multiset_insert(all, at as int, name@);
        assert forall|i: int, j: int| 0 <= i < j < now.len() implies before(now[i], now[j]) by {
            if i < at && j == at {
                assert(before(old(sorted)@[i]@, name@));
            } else if i == at {
                let first = all[at as int];
                assert(first == old(sorted)@[at as int]@);
                before_is_an_order(name@, first, all[j - 1]);
                if j - 1 > at {
                    assert(before(all[at as int], all[j - 1]));
                }
            } else if i < at && j > at {
                assert(before(all[i], all[j - 1]));
            } else if i > at {
                assert(before(all[i - 1], all[j - 1]));
            } else {
                assert(before(all[i], all[j]));
            }
        }
    }
}

/// The render nodes among the names in the device directory, in order. A node
/// named for the purpose is used alone instead; then `names` is not looked at.
pub fn candidates(named: Option<Vec<u8>>, names: Vec<Vec<u8>>) -> (nodes: Vec<Vec<u8>>)
    ensures
        match named {
            Some(node) => name_list(nodes@) == seq![node@],
            None => in_order(name_list(nodes@)) && name_list(nodes@).to_multiset() == name_list(
                names@,
            ).filter(|n: Seq<u8>| render_name(n)).to_multiset(),
        },
        named is None ==> forall|i: int, j: int|
            0 <= i < j < nodes@.len() ==> before(
                (#[trigger] nodes@[i])@,
                (#[trigger] nodes@[j])@,
            ),
{
    let mut nodes: Vec<Vec<u8>> = Vec::new();
    if let Some(node) = named {
        nodes.push(node);
        assert(name_list(nodes@) == seq![node@]);
        return nodes;
    }
    let ghost p = |n: Seq<u8>| render_name(n);
    let ghost all = name_list(names@);
    let mut i: usize = 0;
    proof {
        assert(all.take(0) == Seq::<Seq<u8>>::empty());
        assert(all.take(0).filter(p) == Seq::<Seq<u8>>::empty()) by {
            reveal(Seq::filter);
        }
        assert(name_list(nodes@) == Seq::<Seq<u8>>::empty());
    }
    while i < names.len()
        invariant
            i <= names.len(),
            named is None,
            p == (|n: Seq<u8>| render_name(n)),
            all == name_list(names@),
            in_order(name_list(nodes@)),
            name_list(nodes@).to_multiset() == all.take(i as int).filter(p).to_multiset(),
        decreases names.len() - i,
    {
        let ghost name = names@[i as int]@;
        proof {
            assert(all[i as int] == name);
            assert(all.take(i + 1) == all.take(i as int).push(name));
            all.take(i as int).lemma_filter_push(name, p);
            vstd::seq_lib::to_multiset_build(all.take(i as int).filter(p), name);
        }
        if is_render_node(&names[i]) {
            let copy = copy_name(&names[i]);
            insert_in_order(&mut nodes, copy);
        }
        i += 1;
    }
    assert(all.take(i as int) == all);
    proof {
        let listed = name_list(nodes@);
        assert forall|i: int, j: int| 0 <= i < j < nodes@.len() implies before(
            (#[trigger] nodes@[i])@,
            (#[trigger] nodes@[j])@,
        ) by {
            assert(before(listed[i], listed[j]));
        }
    }
    nodes
}

fn copy_name(name: &Vec<u8>) -> (copy: Vec<u8>)
    ensures
        copy@ == name@,
{
    let mut copy: Vec<u8> = Vec::new();
    let mut i: usize = 0;
    while i < name.len()
        invariant
            i <= name.len(),
            copy@ == name@.take(i as int),
        decreases name.len() - i,
    {
        copy.push(name[i]);
        i += 1;
    }
    copy
}

/// A render node's name is "renderD" and whatever follows.
pub proof fn what_a_render_node_is_called(n: Seq<u8>)
    ensures
        render_name(n) <==> n.len() >= 7 && n[0] == 0x72 && n[1] == 0x65 && n[2] == 0x6e && n[3]
            == 0x64 && n[4] == 0x65 && n[5] == 0x72 && n[6] == 0x44,
{
    let r = seq![0x72u8, 0x65, 0x6e, 0x64, 0x65, 0x72, 0x44];
    if r.is_prefix_of(n) {
        assert(r == n.subrange(0, 7));
        assert forall|i: int| 0 <= i < 7 implies r[i] == n[i] by {
            assert(n.subrange(0, 7)[i] == n[i]);
        }
        assert(r[0] == n[0] && r[1] == n[1] && r[2] == n[2] && r[3] == n[3] && r[4] == n[4]
            && r[5] == n[5] && r[6] == n[6]);
    } else if n.len() >= 7 && n[0] == 0x72 && n[1] == 0x65 && n[2] == 0x6e && n[3] == 0x64 && n[4]
        == 0x65 && n[5] == 0x72 && n[6] == 0x44 {
        assert(r =~= n.subrange(0, 7));
    }
}

/// A heap is contiguous where its name has "cma" in it, at the front, at the
/// end or between, or is "reserved".
pub proof fn what_a_contiguous_heap_is_called(before: Seq<u8>, after: Seq<u8>, n: Seq<u8>)
    ensures
        contiguous_heap(before + seq![0x63u8, 0x6d, 0x61] + after),
        contiguous_heap(seq![0x72u8, 0x65, 0x73, 0x65, 0x72, 0x76, 0x65, 0x64]),
        contiguous_heap(generic_heap()),
        contiguous_heap(n) ==> n.len() == 8 || exists|at: int|
            0 <= at < n.len() - 2 && #[trigger] n[at] == 0x63 && n[at + 1] == 0x6d && n[at + 2]
                == 0x61,
        contiguous_heap(n) && !(exists|at: int|
            0 <= at < n.len() - 2 && #[trigger] n[at] == 0x63 && n[at + 1] == 0x6d && n[at + 2]
                == 0x61) ==> n == seq![0x72u8, 0x65, 0x73, 0x65, 0x72, 0x76, 0x65, 0x64],
{
    let part = seq![0x63u8, 0x6d, 0x61];
    let whole = before + part + after;
    assert(whole.subrange(before.len() as int, before.len() + 3int) =~= part);
    assert(holds_at(whole, part, before.len() as int));
    assert(generic_heap().subrange(6, 9) =~= part);
    assert(holds_at(generic_heap(), part, 6));
    if exists|at: int| holds_at(n, part, at) {
        let at = choose|at: int| holds_at(n, part, at);
        let s = n.subrange(at, at + 3);
        assert(s[0] == n[at] && s[1] == n[at + 1] && s[2] == n[at + 2]);
        assert(part[0] == 0x63 && part[1] == 0x6d && part[2] == 0x61);
        assert(n[at] == 0x63);
    }
}

/// The generic contiguous heap is called "linux,cma" and preferred to any
/// other; of others the first in order is.
pub proof fn which_heap_is_preferred(a: Seq<u8>, b: Seq<u8>)
    ensures
        generic_heap() == seq![0x6cu8, 0x69, 0x6e, 0x75, 0x78, 0x2c, 0x63, 0x6d, 0x61],
        preferred(generic_heap(), b),
        a != generic_heap() ==> !preferred(a, generic_heap()),
        a != generic_heap() && b != generic_heap() ==> (preferred(a, b) <==> before(a, b)),
{
}

/// Names are in order byte by byte: the first byte that differs decides, the
/// smaller first, and a name comes before those it begins.
pub proof fn the_first_difference_decides(common: Seq<u8>, a: Seq<u8>, b: Seq<u8>, x: u8, y: u8)
    requires
        x < y,
    ensures
        before(common + seq![x] + a, common + seq![y] + b),
        !before(common + seq![y] + b, common + seq![x] + a),
        before(common, common + seq![x] + a),
        !before(common + seq![x] + a, common),
    decreases common.len(),
{
    let p = common + seq![x] + a;
    let q = common + seq![y] + b;
    if common.len() > 0 {
        let c = common.drop_first();
        the_first_difference_decides(c, a, b, x, y);
        assert(p.drop_first() =~= c + seq![x] + a);
        assert(q.drop_first() =~= c + seq![y] + b);
        assert(p[0] == common[0] && q[0] == common[0]);
    } else {
        assert(p[0] == x && q[0] == y);
    }
}

} // verus!
