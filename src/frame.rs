//! Buffers for the objects that are still open: one member per key, and the
//! sort-and-assemble step that renders a closed object.
use vstd::multiset::Multiset;
use vstd::prelude::*;

use crate::text::{
    key_le, key_le_exec, lemma_key_le_antisymmetric, lemma_key_le_total, lemma_key_le_transitive,
    push_all,
};

verus! {

pub const OPEN_BRACE: u8 = 0x7b;
pub const CLOSE_BRACE: u8 = 0x7d;
pub const COLON: u8 = 0x3a;
pub const COMMA: u8 = 0x2c;

/// What a member buffer holds: the rendered key, the rendered value, and
/// whether the key is complete.
pub struct MemberView {
    pub key: Seq<u8>,
    pub value: Seq<u8>,
    pub key_finished: bool,
}

/// One key/value pair of an open object. Bytes go to the key until the key
/// is finished, and to the value after that.
pub struct ObjectMemberBuffer {
    pub key: Vec<u8>,
    pub value: Vec<u8>,
    pub key_finished: bool,
}

impl View for ObjectMemberBuffer {
    type V = MemberView;

    open spec fn view(&self) -> MemberView {
        MemberView { key: self.key@, value: self.value@, key_finished: self.key_finished }
    }
}

/// A member after `bytes` have been written to it.
pub open spec fn member_append(m: MemberView, bytes: Seq<u8>) -> MemberView {
    if m.key_finished {
        MemberView { value: m.value + bytes, ..m }
    } else {
        MemberView { key: m.key + bytes, ..m }
    }
}

/// The text of one member: key, colon, value.
pub open spec fn member_text(m: MemberView) -> Seq<u8> {
    m.key + seq![COLON] + m.value
}

impl ObjectMemberBuffer {
    pub fn new() -> (r: Self)
        ensures
            r@ == (MemberView { key: Seq::empty(), value: Seq::empty(), key_finished: false }),
    {
        ObjectMemberBuffer { key: Vec::new(), value: Vec::new(), key_finished: false }
    }

    /// Writes one byte to the key or, once the key is finished, to the value.
    pub fn push(&mut self, b: u8)
        ensures
            final(self)@ == member_append(old(self)@, seq![b]),
    {
        if self.key_finished {
            self.value.push(b);
        } else {
            self.key.push(b);
        }
        assert(final(self)@.key =~= member_append(old(self)@, seq![b]).key);
        assert(final(self)@.value =~= member_append(old(self)@, seq![b]).value);
    }

    /// Writes bytes to the key or, once the key is finished, to the value.
    pub fn push_str(&mut self, bytes: &[u8])
        ensures
            final(self)@ == member_append(old(self)@, bytes@),
    {
        if self.key_finished {
            push_all(&mut self.value, bytes);
        } else {
            push_all(&mut self.key, bytes);
        }
    }

    /// From now on bytes go to the value.
    pub fn finish_key(&mut self)
        ensures
            final(self)@ == (MemberView { key_finished: true, ..old(self)@ }),
    {
        self.key_finished = true;
    }

    /// Renders the member as `key:value`, after a comma unless it is first.
    pub fn string(&self, first: bool) -> (r: Vec<u8>)
        ensures
            r@ == if first {
                member_text(self@)
            } else {
                seq![COMMA] + member_text(self@)
            },
    {
        let mut r: Vec<u8> = Vec::new();
        if !first {
            r.push(COMMA);
        }
        push_all(&mut r, self.key.as_slice());
        r.push(COLON);
        push_all(&mut r, self.value.as_slice());
        proof {
            if first {
                assert(r@ =~= member_text(self@));
            } else {
                assert(r@ =~= seq![COMMA] + member_text(self@));
            }
        }
        r
    }
}

/// The views of a sequence of member buffers.
pub open spec fn member_views(ms: Seq<ObjectMemberBuffer>) -> Seq<MemberView> {
    ms.map_values(|m: ObjectMemberBuffer| m@)
}

/// Places `m` into `sorted` before the first member whose key is not
/// smaller, so that members of equal keys keep their order when the rest
/// is inserted back to front.
pub open spec fn insert_member(sorted: Seq<MemberView>, m: MemberView) -> Seq<MemberView>
    decreases sorted.len(),
{
    if sorted.len() == 0 {
        seq![m]
    } else if key_le(m.key, sorted.last().key) {
        insert_member(sorted.drop_last(), m).push(sorted.last())
    } else {
        sorted.push(m)
    }
}

/// The members sorted by their rendered key bytes; members of equal keys
/// stay in the order they came in.
pub open spec fn sort_members(ms: Seq<MemberView>) -> Seq<MemberView>
    decreases ms.len(),
{
    if ms.len() == 0 {
        ms
    } else {
        insert_member(sort_members(ms.drop_first()), ms[0])
    }
}

/// The members' texts joined by commas.
pub open spec fn join_members(ms: Seq<MemberView>) -> Seq<u8>
    decreases ms.len(),
{
    if ms.len() == 0 {
        Seq::empty()
    } else if ms.len() == 1 {
        member_text(ms[0])
    } else {
        join_members(ms.drop_last()) + seq![COMMA] + member_text(ms.last())
    }
}

/// The canonical text of a closed object whose members are `ms`, in the
/// order their keys began.
pub open spec fn object_text(ms: Seq<MemberView>) -> Seq<u8> {
    seq![OPEN_BRACE] + join_members(sort_members(ms)) + seq![CLOSE_BRACE]
}

/// Every member's key sorts no later than the keys of the members after it.
pub open spec fn keys_ascending(s: Seq<MemberView>) -> bool {
    forall|i: int, j: int|
        0 <= i < j < s.len() ==> key_le(#[trigger] s[i].key, #[trigger] s[j].key)
}

/// No two members share a key.
pub open spec fn keys_distinct(s: Seq<MemberView>) -> bool {
    forall|i: int, j: int| 0 <= i < j < s.len() ==> #[trigger] s[i].key != #[trigger] s[j].key
}

/// Members held by `m` that share a key are the same member.
pub open spec fn keys_unique_in(m: Multiset<MemberView>) -> bool {
    forall|x: MemberView, y: MemberView|
        #[trigger] m.count(x) > 0 && #[trigger] m.count(y) > 0 && x.key == y.key ==> x == y
}

proof fn lemma_insert_member(s: Seq<MemberView>, m: MemberView)
    requires
        keys_ascending(s),
    ensures
        keys_ascending(insert_member(s, m)),
        insert_member(s, m).to_multiset() == s.to_multiset().insert(m),
        forall|k: int|
            0 <= k < insert_member(s, m).len() ==> #[trigger] insert_member(s, m)[k] == m
                || s.contains(insert_member(s, m)[k]),
    decreases s.len(),
{
    broadcast use vstd::seq_lib::group_to_multiset_ensures;

    let r = insert_member(s, m);
    if s.len() == 0 {
        assert(r =~= Seq::<MemberView>::empty().push(m));
    } else {
        let d = s.drop_last();
        let l = s.last();
        assert(s =~= d.push(l));
        if key_le(m.key, l.key) {
            assert(keys_ascending(d));
            lemma_insert_member(d, m);
            let t = insert_member(d, m);
            assert(r == t.push(l));
            assert forall|k: int| 0 <= k < r.len() implies #[trigger] r[k] == m || s.contains(
                r[k],
            ) by {
                if k < t.len() && t[k] != m {
                    let idx = choose|idx: int| 0 <= idx < d.len() && d[idx] == t[k];
                    assert(s[idx] == r[k]);
                } else if k == t.len() {
                    assert(s[s.len() - 1] == r[k]);
                }
            }
            assert forall|i: int, j: int| 0 <= i < j < r.len() implies key_le(
                #[trigger] r[i].key,
                #[trigger] r[j].key,
            ) by {
                if j == t.len() {
                    if t[i] != m {
                        let idx = choose|idx: int| 0 <= idx < d.len() && d[idx] == t[i];
                        assert(s[idx] == r[i]);
                    }
                }
            }
            assert(r.to_multiset() =~= s.to_multiset().insert(m));
        } else {
            lemma_key_le_total(m.key, l.key);
            assert(r == s.push(m));
            assert forall|i: int, j: int| 0 <= i < j < r.len() implies key_le(
                #[trigger] r[i].key,
                #[trigger] r[j].key,
            ) by {
                if j == s.len() && i < s.len() - 1 {
                    lemma_key_le_transitive(s[i].key, l.key, m.key);
                }
            }
            assert forall|k: int| 0 <= k < r.len() implies #[trigger] r[k] == m || s.contains(
                r[k],
            ) by {
                if k < s.len() {
                    assert(s[k] == r[k]);
                }
            }
        }
    }
}

/// The members of a closed object come out with their keys in ascending
/// byte order, and they are exactly the members that went in.
pub proof fn lemma_sorted_members(ms: Seq<MemberView>)
    ensures
        keys_ascending(sort_members(ms)),
        sort_members(ms).to_multiset() == ms.to_multiset(),
    decreases ms.len(),
{
    broadcast use vstd::seq_lib::group_to_multiset_ensures;

    if ms.len() > 0 {
        lemma_sorted_members(ms.drop_first());
        lemma_insert_member(sort_members(ms.drop_first()), ms[0]);
        assert(ms =~= ms.drop_first().insert(0, ms[0]));
    }
}

proof fn lemma_sorted_unique(s1: Seq<MemberView>, s2: Seq<MemberView>)
    requires
        keys_ascending(s1),
        keys_ascending(s2),
        s1.to_multiset() == s2.to_multiset(),
        keys_unique_in(s1.to_multiset()),
    ensures
        s1 == s2,
    decreases s1.len(),
{
    broadcast use vstd::seq_lib::group_to_multiset_ensures;
    broadcast use vstd::multiset::group_multiset_axioms;

    assert(s1.to_multiset().len() == s1.len());
    assert(s2.to_multiset().len() == s2.len());
    if s1.len() == 0 {
        assert(s2 =~= s1);
    } else {
        let a = s1[0];
        let b = s2[0];
        assert(s1.contains(a));
        assert(s1.to_multiset().count(a) > 0);
        assert(s2.to_multiset().count(a) > 0);
        assert(s2.contains(a));
        assert(s2.contains(b));
        assert(s2.to_multiset().count(b) > 0);
        assert(s1.to_multiset().count(b) > 0);
        assert(s1.contains(b));
        let j = choose|j: int| 0 <= j < s2.len() && s2[j] == a;
        let i = choose|i: int| 0 <= i < s1.len() && s1[i] == b;
        lemma_key_le_total(a.key, a.key);
        lemma_key_le_total(b.key, b.key);
        assert(key_le(b.key, a.key)) by {
            if j > 0 {
                assert(key_le(s2[0].key, s2[j].key));
            }
        }
        assert(key_le(a.key, b.key)) by {
            if i > 0 {
                assert(key_le(s1[0].key, s1[i].key));
            }
        }
        lemma_key_le_antisymmetric(a.key, b.key);
        assert(a == b);
        let m = s1.to_multiset();
        assert(s1.remove(0) =~= s1.drop_first());
        assert(s2.remove(0) =~= s2.drop_first());
        assert(s1.drop_first().to_multiset() == m.remove(a));
        assert(s2.drop_first().to_multiset() == m.remove(a));
        assert(keys_unique_in(m.remove(a)));
        assert(keys_ascending(s1.drop_first()));
        assert(keys_ascending(s2.drop_first()));
        lemma_sorted_unique(s1.drop_first(), s2.drop_first());
        assert forall|k: int| 0 <= k < s1.len() implies s1[k] == s2[k] by {
            if k > 0 {
                assert(s1[k] == s1.drop_first()[k - 1]);
                assert(s2[k] == s2.drop_first()[k - 1]);
            }
        }
        assert(s1 =~= s2);
    }
}

proof fn lemma_distinct_keys_unique(ms: Seq<MemberView>)
    requires
        keys_distinct(ms),
    ensures
        keys_unique_in(ms.to_multiset()),
{
    broadcast use vstd::seq_lib::group_to_multiset_ensures;

    assert forall|x: MemberView, y: MemberView|
        #[trigger] ms.to_multiset().count(x) > 0 && #[trigger] ms.to_multiset().count(y) > 0
            && x.key == y.key implies x == y by {
        assert(ms.contains(x));
        assert(ms.contains(y));
        let i = choose|i: int| 0 <= i < ms.len() && ms[i] == x;
        let j = choose|j: int| 0 <= j < ms.len() && ms[j] == y;
        if i < j {
            assert(ms[i].key != ms[j].key);
        } else if j < i {
            assert(ms[j].key != ms[i].key);
        }
    }
}

/// An object's text does not depend on the order in which its members
/// arrived: two objects with the same members and no repeated key render
/// to the same bytes.
pub proof fn lemma_object_text_order_independent(ms1: Seq<MemberView>, ms2: Seq<MemberView>)
    requires
        ms1.to_multiset() == ms2.to_multiset(),
        keys_distinct(ms1),
    ensures
        object_text(ms1) == object_text(ms2),
{
    lemma_sorted_members(ms1);
    lemma_sorted_members(ms2);
    lemma_distinct_keys_unique(ms1);
    lemma_sorted_unique(sort_members(ms1), sort_members(ms2));
}

/// Inserts `m` into the sorted buffers as `insert_member` says.
fn insert_sorted(sorted: &mut Vec<ObjectMemberBuffer>, m: ObjectMemberBuffer)
    ensures
        member_views(final(sorted)@) == insert_member(member_views(old(sorted)@), m@),
{
    let ghost s = member_views(sorted@);
    let mut j: usize = sorted.len();
    assert(s.subrange(0, s.len() as int) =~= s);
    assert(s.subrange(s.len() as int, s.len() as int) =~= Seq::<MemberView>::empty());
    while j > 0 && key_le_exec(&m.key, &sorted[j - 1].key)
        invariant
            j <= sorted@.len(),
            s == member_views(sorted@),
            insert_member(s, m@) == insert_member(s.subrange(0, j as int), m@) + s.subrange(
                j as int,
                s.len() as int,
            ),
        decreases j,
    {
        let ghost p = s.subrange(0, j as int);
        assert(p.drop_last() =~= s.subrange(0, j - 1));
        assert(p.last() == s[j - 1]);
        assert(s.subrange(j - 1, s.len() as int) =~= seq![s[j - 1]] + s.subrange(
            j as int,
            s.len() as int,
        ));
        assert(insert_member(p, m@) == insert_member(s.subrange(0, j - 1), m@).push(s[j - 1]));
        assert(insert_member(s.subrange(0, j - 1), m@).push(s[j - 1]) + s.subrange(
            j as int,
            s.len() as int,
        ) =~= insert_member(s.subrange(0, j - 1), m@) + s.subrange(j - 1, s.len() as int));
        j = j - 1;
    }
    let ghost mv = m@;
    sorted.insert(j, m);
    assert(member_views(sorted@) =~= s.insert(j as int, mv));
    assert(s.insert(j as int, mv) =~= insert_member(s.subrange(0, j as int), mv) + s.subrange(
        j as int,
        s.len() as int,
    ));
}

/// One open object: its members in the order their keys began.
pub struct ObjectStackFrame {
    pub members: Vec<ObjectMemberBuffer>,
}

impl View for ObjectStackFrame {
    type V = Seq<MemberView>;

    open spec fn view(&self) -> Seq<MemberView> {
        member_views(self.members@)
    }
}

impl ObjectStackFrame {
    pub fn new() -> (r: Self)
        ensures
            r@ == Seq::<MemberView>::empty(),
    {
        let r = ObjectStackFrame { members: Vec::new() };
        assert(r@ =~= Seq::<MemberView>::empty());
        r
    }

    /// Starts a new member, which becomes the current one.
    pub fn push_member(&mut self)
        ensures
            final(self)@ == old(self)@.push(
                MemberView { key: Seq::empty(), value: Seq::empty(), key_finished: false },
            ),
    {
        self.members.push(ObjectMemberBuffer::new());
        assert(final(self)@ =~= old(self)@.push(
            MemberView { key: Seq::empty(), value: Seq::empty(), key_finished: false },
        ));
    }

    /// Sorts the members by key and renders the object.
    pub fn string(self) -> (r: Vec<u8>)
        ensures
            r@ == object_text(self@),
    {
        let ghost all = self@;
        let mut rest = self.members;
        let mut sorted: Vec<ObjectMemberBuffer> = Vec::new();
        assert(all.subrange(rest@.len() as int, all.len() as int) =~= Seq::<MemberView>::empty());
        assert(member_views(sorted@) =~= Seq::<MemberView>::empty());
        while rest.len() > 0
            invariant
                rest@.len() <= all.len(),
                member_views(rest@) == all.subrange(0, rest@.len() as int),
                member_views(sorted@) == sort_members(
                    all.subrange(rest@.len() as int, all.len() as int),
                ),
            decreases rest@.len(),
        {
            let ghost k = rest@.len();
            let ghost before = rest@;
            let m = rest.pop().unwrap();
            assert(member_views(before)[k - 1] == m@);
            let ghost tail = all.subrange(k - 1, all.len() as int);
            assert(tail.drop_first() =~= all.subrange(k as int, all.len() as int));
            assert(tail[0] == all[k - 1]);
            assert(member_views(rest@) =~= all.subrange(0, k - 1));
            insert_sorted(&mut sorted, m);
            assert(sort_members(tail) == insert_member(sort_members(tail.drop_first()), tail[0]));
        }
        assert(all.subrange(0, all.len() as int) =~= all);
        let mut r: Vec<u8> = Vec::new();
        r.push(OPEN_BRACE);
        let ghost ordered = member_views(sorted@);
        let mut i: usize = 0;
        while i < sorted.len()
            invariant
                i <= sorted@.len(),
                ordered == member_views(sorted@),
                r@ == seq![OPEN_BRACE] + join_members(ordered.subrange(0, i as int)),
            decreases sorted@.len() - i,
        {
            let part = sorted[i].string(i == 0);
            let ghost before = r@;
            push_all(&mut r, part.as_slice());
            let ghost p = ordered.subrange(0, i + 1);
            assert(p.drop_last() =~= ordered.subrange(0, i as int));
            assert(p.last() == ordered[i as int]);
            if i == 0 {
                assert(join_members(p) == member_text(ordered[0]));
            }
            assert(r@ =~= seq![OPEN_BRACE] + join_members(p));
            i = i + 1;
        }
        assert(ordered.subrange(0, ordered.len() as int) =~= ordered);
        r.push(CLOSE_BRACE);
        assert(r@ =~= object_text(all));
        r
    }
}

} // verus!
