//! Ordering policy: the total preorder over persons used by every view that
//! lists persons (methodology category first, then surname and given name,
//! both case-insensitively), together with the stable insertion sort that
//! realises it and the groups-by-id sort used by the reload algorithm.

use vstd::multiset::Multiset;
use vstd::prelude::*;
use vstd::string::StrSliceExecFns;

use crate::types::{
    methodology_code, persons_vw, Group, GroupWithMembers, GroupWithMembersView, Person,
    PersonView, groups_vw,
};

verus! {

/// `leq` relates every pair one way or the other, and is transitive.
/// Antisymmetry is not required: two distinct persons may compare equal.
pub open spec fn total_preorder<A>(leq: spec_fn(A, A) -> bool) -> bool {
    &&& forall|a: A, b: A| #[trigger] leq(a, b) || #[trigger] leq(b, a)
    &&& forall|a: A, b: A, c: A| #[trigger] leq(a, b) && #[trigger] leq(b, c) ==> leq(a, c)
}

/// Position at which a stable insertion places `x` into `s`: after every
/// leading element that is `leq x`.
pub open spec fn insort_pos<A>(s: Seq<A>, x: A, leq: spec_fn(A, A) -> bool) -> int
    decreases s.len(),
{
    if s.len() == 0 {
        0
    } else if leq(s[0], x) {
        1 + insort_pos(s.drop_first(), x, leq)
    } else {
        0
    }
}

/// Stable insertion of `x` into `s`: `x` goes after every leading element
/// that is `leq x`, so elements equal to `x` keep their place before it.
pub open spec fn insort_by<A>(s: Seq<A>, x: A, leq: spec_fn(A, A) -> bool) -> Seq<A>
    decreases s.len(),
{
    if s.len() == 0 {
        seq![x]
    } else if leq(s[0], x) {
        seq![s[0]] + insort_by(s.drop_first(), x, leq)
    } else {
        seq![x] + s
    }
}

/// Stable insertion sort of `s` under `leq`.
pub open spec fn sort_by_spec<A>(s: Seq<A>, leq: spec_fn(A, A) -> bool) -> Seq<A>
    decreases s.len(),
{
    if s.len() == 0 {
        Seq::empty()
    } else {
        insort_by(sort_by_spec(s.drop_last(), leq), s.last(), leq)
    }
}

/// The insertion position splits `s` into a prefix of elements `leq x` and
/// the rest, and the insertion is exactly prefix + `x` + rest.
pub proof fn lemma_insort_characterization<A>(s: Seq<A>, x: A, leq: spec_fn(A, A) -> bool)
    ensures
        0 <= insort_pos(s, x, leq) <= s.len(),
        insort_by(s, x, leq) == s.take(insort_pos(s, x, leq)) + seq![x] + s.skip(
            insort_pos(s, x, leq),
        ),
        forall|i: int| 0 <= i < insort_pos(s, x, leq) ==> leq(#[trigger] s[i], x),
        insort_pos(s, x, leq) < s.len() ==> !leq(s[insort_pos(s, x, leq)], x),
    decreases s.len(),
{
    let pos = insort_pos(s, x, leq);
    if s.len() == 0 {
        assert(insort_by(s, x, leq) =~= s.take(pos) + seq![x] + s.skip(pos));
    } else if leq(s[0], x) {
        let t = s.drop_first();
        lemma_insort_characterization(t, x, leq);
        let tpos = insort_pos(t, x, leq);
        assert(pos == 1 + tpos);
        assert forall|i: int| 0 <= i < pos implies leq(#[trigger] s[i], x) by {
            if i >= 1 {
                assert(t[i - 1] == s[i]);
                assert(leq(t[i - 1], x));
            }
        }
        assert(s.take(pos) =~= seq![s[0]] + t.take(tpos));
        assert(s.skip(pos) =~= t.skip(tpos));
        assert(insort_by(s, x, leq) =~= s.take(pos) + seq![x] + s.skip(pos));
    } else {
        assert(insort_by(s, x, leq) =~= s.take(0) + seq![x] + s.skip(0));
    }
}

/// If every leading element up to `j` is `leq x` and the element at `j`
/// (when there is one) is not, then `j` is the insertion position.
pub proof fn lemma_insort_pos_unique<A>(s: Seq<A>, x: A, leq: spec_fn(A, A) -> bool, j: int)
    requires
        0 <= j <= s.len(),
        forall|i: int| 0 <= i < j ==> leq(#[trigger] s[i], x),
        j < s.len() ==> !leq(s[j], x),
    ensures
        insort_pos(s, x, leq) == j,
    decreases s.len(),
{
    if s.len() == 0 {
    } else if leq(s[0], x) {
        let t = s.drop_first();
        assert(forall|i: int| 0 <= i < j - 1 ==> t[i] == s[i + 1] && leq(#[trigger] t[i], x));
        lemma_insort_pos_unique(t, x, leq, j - 1);
    } else {
        assert(!leq(s[0], x));
        if j > 0 {
            assert(leq(s[0], x));
        }
    }
}

/// Inserting into a sorted sequence keeps it sorted.
pub proof fn lemma_insort_sorted<A>(s: Seq<A>, x: A, leq: spec_fn(A, A) -> bool)
    requires
        total_preorder(leq),
        vstd::relations::sorted_by(s, leq),
    ensures
        vstd::relations::sorted_by(insort_by(s, x, leq), leq),
{
    lemma_insort_characterization(s, x, leq);
    let pos = insort_pos(s, x, leq);
    let r = insort_by(s, x, leq);
    assert forall|i: int, j: int| 0 <= i < j < r.len() implies leq(r[i], r[j]) by {
        if i < pos && j == pos {
            assert(r[i] == s[i] && leq(s[i], x));
        } else if i == pos && j > pos {
            assert(r[j] == s[j - 1]);
            if pos < s.len() {
                assert(!leq(s[pos], x));
                assert(leq(x, s[pos]));
                assert(leq(s[pos], s[j - 1]) || pos == j - 1);
            }
        } else if i < pos && j > pos {
            assert(r[i] == s[i] && r[j] == s[j - 1] && leq(s[i], s[j - 1]));
        } else if j < pos {
            assert(r[i] == s[i] && r[j] == s[j]);
        } else if i > pos {
            assert(r[i] == s[i - 1] && r[j] == s[j - 1]);
        }
    }
}

/// The sort's output is sorted.
pub proof fn lemma_sort_by_spec_sorted<A>(s: Seq<A>, leq: spec_fn(A, A) -> bool)
    requires
        total_preorder(leq),
    ensures
        vstd::relations::sorted_by(sort_by_spec(s, leq), leq),
    decreases s.len(),
{
    if s.len() > 0 {
        lemma_sort_by_spec_sorted(s.drop_last(), leq);
        lemma_insort_sorted(sort_by_spec(s.drop_last(), leq), s.last(), leq);
    }
}

/// Sorting a sorted sequence gives it back unchanged: the sort is
/// idempotent.
pub proof fn lemma_sort_by_spec_of_sorted<A>(s: Seq<A>, leq: spec_fn(A, A) -> bool)
    requires
        total_preorder(leq),
        vstd::relations::sorted_by(s, leq),
    ensures
        sort_by_spec(s, leq) == s,
    decreases s.len(),
{
    if s.len() > 0 {
        let t = s.drop_last();
        let x = s.last();
        lemma_sort_by_spec_of_sorted(t, leq);
        lemma_insort_characterization(t, x, leq);
        assert(forall|i: int| 0 <= i < t.len() ==> leq(#[trigger] t[i], x));
        let pos = insort_pos(t, x, leq);
        if pos < t.len() {
            assert(leq(t[pos], x));
        }
        assert(pos == t.len());
        assert(insort_by(t, x, leq) =~= s);
    }
}

/// Sorting twice yields the same sequence as sorting once.
pub proof fn lemma_sort_by_spec_idempotent<A>(s: Seq<A>, leq: spec_fn(A, A) -> bool)
    requires
        total_preorder(leq),
    ensures
        sort_by_spec(sort_by_spec(s, leq), leq) == sort_by_spec(s, leq),
{
    lemma_sort_by_spec_sorted(s, leq);
    lemma_sort_by_spec_of_sorted(sort_by_spec(s, leq), leq);
}

/// Case-insensitive image of a character sequence, as `str::to_lowercase`
/// computes it.
pub uninterp spec fn lower_of(s: Seq<char>) -> Seq<char>;

/// Relies on `str::to_lowercase`: the result is a function of the input
/// characters alone (the Unicode lowercase mapping, locale-independent).
#[verifier::external_body]
fn lowercase(s: &str) -> (r: String)
    ensures
        r@ == lower_of(s@),
{
    s.to_lowercase()
}

/// Lexicographic "less or equal" over character sequences, by code point.
pub open spec fn lex_le(a: Seq<char>, b: Seq<char>) -> bool
    decreases a.len(),
{
    if a.len() == 0 {
        true
    } else if b.len() == 0 {
        false
    } else if a[0] == b[0] {
        lex_le(a.drop_first(), b.drop_first())
    } else {
        (a[0] as u32) < (b[0] as u32)
    }
}

pub proof fn lemma_lex_le_refl(a: Seq<char>)
    ensures
        lex_le(a, a),
    decreases a.len(),
{
    if a.len() > 0 {
        lemma_lex_le_refl(a.drop_first());
    }
}

pub proof fn lemma_lex_le_total(a: Seq<char>, b: Seq<char>)
    ensures
        lex_le(a, b) || lex_le(b, a),
    decreases a.len(),
{
    if a.len() == 0 {
        assert(lex_le(a, b));
    } else if b.len() == 0 {
        assert(lex_le(b, a));
    } else if a[0] == b[0] {
        lemma_lex_le_total(a.drop_first(), b.drop_first());
    } else {
        assert((a[0] as u32) != (b[0] as u32)) by {
            vstd::utf8::char_u32_cast(a[0], a[0] as u32);
            vstd::utf8::char_u32_cast(b[0], b[0] as u32);
        }
    }
}

pub proof fn lemma_lex_le_antisymmetric(a: Seq<char>, b: Seq<char>)
    requires
        lex_le(a, b),
        lex_le(b, a),
    ensures
        a == b,
    decreases a.len(),
{
    if a.len() == 0 {
        assert(a =~= b);
    } else {
        assert(a[0] == b[0]);
        lemma_lex_le_antisymmetric(a.drop_first(), b.drop_first());
        assert(a =~= seq![a[0]] + a.drop_first());
        assert(b =~= seq![b[0]] + b.drop_first());
    }
}

pub proof fn lemma_lex_le_transitive(a: Seq<char>, b: Seq<char>, c: Seq<char>)
    requires
        lex_le(a, b),
        lex_le(b, c),
    ensures
        lex_le(a, c),
    decreases a.len(),
{
    if a.len() > 0 {
        assert(b.len() > 0);
        assert(c.len() > 0);
        if a[0] == b[0] && b[0] == c[0] {
            lemma_lex_le_transitive(a.drop_first(), b.drop_first(), c.drop_first());
        }
    }
}

/// The three-key ordering policy over persons: methodology category first,
/// then surname and given name, both folded to lowercase.
pub open spec fn person_le(a: PersonView, b: PersonView) -> bool {
    let ma = methodology_code(a.methodology);
    let mb = methodology_code(b.methodology);
    if ma != mb {
        ma < mb
    } else {
        let sa = lower_of(a.surname);
        let sb = lower_of(b.surname);
        if sa != sb {
            lex_le(sa, sb)
        } else {
            lex_le(lower_of(a.name), lower_of(b.name))
        }
    }
}

/// The ordering policy as a first-class relation.
pub open spec fn person_order() -> spec_fn(PersonView, PersonView) -> bool {
    |a: PersonView, b: PersonView| person_le(a, b)
}

/// The two persons agree on all three sort keys.
pub open spec fn person_keys_equal(a: PersonView, b: PersonView) -> bool {
    &&& methodology_code(a.methodology) == methodology_code(b.methodology)
    &&& lower_of(a.surname) == lower_of(b.surname)
    &&& lower_of(a.name) == lower_of(b.name)
}

/// The ordering policy is a total preorder: it relates every pair and is
/// transitive, while distinct persons with equal keys compare equal both
/// ways.
pub proof fn lemma_person_order_total_preorder()
    ensures
        total_preorder(person_order()),
{
    let leq = person_order();
    assert forall|a: PersonView, b: PersonView| #[trigger] leq(a, b) || #[trigger] leq(b, a) by {
        lemma_lex_le_total(lower_of(a.surname), lower_of(b.surname));
        lemma_lex_le_total(lower_of(a.name), lower_of(b.name));
    }
    assert forall|a: PersonView, b: PersonView, c: PersonView|
        #[trigger] leq(a, b) && #[trigger] leq(b, c) implies leq(a, c) by {
        lemma_person_le_transitive(a, b, c);
    }
}

proof fn lemma_person_le_transitive(a: PersonView, b: PersonView, c: PersonView)
    requires
        person_le(a, b),
        person_le(b, c),
    ensures
        person_le(a, c),
{
    let ma = methodology_code(a.methodology);
    let mb = methodology_code(b.methodology);
    let mc = methodology_code(c.methodology);
    if ma == mb && mb == mc {
        let sa = lower_of(a.surname);
        let sb = lower_of(b.surname);
        let sc = lower_of(c.surname);
        lemma_lex_le_refl(sa);
        lemma_lex_le_refl(sb);
        assert(lex_le(sa, sb));
        assert(lex_le(sb, sc));
        lemma_lex_le_transitive(sa, sb, sc);
        if sa == sc {
            lemma_lex_le_antisymmetric(sa, sb);
            lemma_lex_le_transitive(lower_of(a.name), lower_of(b.name), lower_of(c.name));
        }
    }
}

/// Two persons whose keys agree compare equal both ways, and conversely:
/// whenever the keys differ, the policy orders the pair strictly.
pub proof fn lemma_person_key_antisymmetric(a: PersonView, b: PersonView)
    requires
        person_le(a, b),
        person_le(b, a),
    ensures
        person_keys_equal(a, b),
{
    if methodology_code(a.methodology) == methodology_code(b.methodology) {
        let sa = lower_of(a.surname);
        let sb = lower_of(b.surname);
        if sa == sb {
            lemma_lex_le_antisymmetric(lower_of(a.name), lower_of(b.name));
        } else {
            lemma_lex_le_antisymmetric(sa, sb);
        }
    }
}

/// The ordering policy is idempotent: sorting a roster twice yields the
/// same sequence as sorting it once.
pub proof fn lemma_ordering_policy_idempotent(s: Seq<PersonView>)
    ensures
        sort_by_spec(sort_by_spec(s, person_order()), person_order()) == sort_by_spec(
            s,
            person_order(),
        ),
{
    lemma_person_order_total_preorder();
    lemma_sort_by_spec_idempotent(s, person_order());
}

/// In any sequence sorted by the ordering policy, two entries whose three
/// keys differ stand in strictly determined relative order.
pub proof fn lemma_sorted_key_determined(s: Seq<PersonView>, i: int, j: int)
    requires
        vstd::relations::sorted_by(s, person_order()),
        0 <= i < j < s.len(),
        !person_keys_equal(s[i], s[j]),
    ensures
        person_le(s[i], s[j]),
        !person_le(s[j], s[i]),
{
    assert(person_order()(s[i], s[j]));
    if person_le(s[j], s[i]) {
        lemma_person_key_antisymmetric(s[i], s[j]);
    }
}

/// Lexicographic comparison of two strings, by code point.
fn str_lex_le(a: &str, b: &str) -> (r: bool)
    ensures
        r == lex_le(a@, b@),
{
    let alen = a.unicode_len();
    let blen = b.unicode_len();
    let mut i: usize = 0;
    proof {
        assert(a@.skip(0) =~= a@);
        assert(b@.skip(0) =~= b@);
    }
    loop
        invariant
            i <= alen,
            i <= blen,
            alen == a@.len(),
            blen == b@.len(),
            lex_le(a@, b@) == lex_le(a@.skip(i as int), b@.skip(i as int)),
        decreases alen - i,
    {
        if i == alen {
            assert(a@.skip(i as int).len() == 0);
            return true;
        }
        if i == blen {
            assert(b@.skip(i as int).len() == 0);
            return false;
        }
        let ca = a.get_char(i);
        let cb = b.get_char(i);
        proof {
            assert(a@.skip(i as int)[0] == a@[i as int]);
            assert(b@.skip(i as int)[0] == b@[i as int]);
        }
        if ca == cb {
            proof {
                assert(a@.skip(i as int).drop_first() =~= a@.skip(i as int + 1));
                assert(b@.skip(i as int).drop_first() =~= b@.skip(i as int + 1));
            }
            i = i + 1;
        } else {
            return (ca as u32) < (cb as u32);
        }
    }
}

/// Decide the ordering policy between two persons.
pub fn person_le_exec(a: &Person, b: &Person) -> (r: bool)
    ensures
        r == person_le(a@, b@),
{
    let ma = a.methodology.code();
    let mb = b.methodology.code();
    if ma != mb {
        ma < mb
    } else {
        let sa = lowercase(a.surname.as_str());
        let sb = lowercase(b.surname.as_str());
        if sa == sb {
            let na = lowercase(a.name.as_str());
            let nb = lowercase(b.name.as_str());
            str_lex_le(na.as_str(), nb.as_str())
        } else {
            str_lex_le(sa.as_str(), sb.as_str())
        }
    }
}

/// Insert `p` into a vector at the position the stable insertion sort
/// assigns to it.
fn insert_person_sorted(v: &mut Vec<Person>, p: Person)
    ensures
        persons_vw(final(v)@) == insort_by(persons_vw(old(v)@), p@, person_order()),
{
    let mut j: usize = 0;
    while j < v.len() && person_le_exec(&v[j], &p)
        invariant
            j <= v.len(),
            v@ == old(v)@,
            forall|i: int| 0 <= i < j ==> person_le(#[trigger] persons_vw(v@)[i], p@),
        decreases v.len() - j,
    {
        proof {
            assert(persons_vw(v@)[j as int] == v@[j as int]@);
        }
        j = j + 1;
    }
    proof {
        let sv = persons_vw(v@);
        lemma_insort_pos_unique(sv, p@, person_order(), j as int);
        lemma_insort_characterization(sv, p@, person_order());
    }
    let ghost before = v@;
    v.insert(j, p);
    proof {
        let sv = persons_vw(before);
        assert(persons_vw(v@) =~= sv.take(j as int) + seq![p@] + sv.skip(j as int));
    }
}

/// Sort a member list by the ordering policy, stably.
pub fn sort_members(members: &mut Vec<Person>)
    ensures
        persons_vw(final(members)@) == sort_by_spec(persons_vw(old(members)@), person_order()),
{
    let ghost orig = old(members)@;
    let mut out: Vec<Person> = Vec::new();
    proof {
        assert(orig.skip(0) =~= orig);
        assert(persons_vw(orig.take(0)).len() == 0);
        assert(persons_vw(out@) =~= sort_by_spec(persons_vw(orig.take(0)), person_order()));
    }
    while members.len() > 0
        invariant
            members@.len() <= orig.len(),
            members@ == orig.skip(orig.len() - members@.len()),
            persons_vw(out@) == sort_by_spec(
                persons_vw(orig.take(orig.len() - members@.len())),
                person_order(),
            ),
        decreases members@.len(),
    {
        let ghost pre = members@;
        let ghost consumed = orig.len() - pre.len();
        let p = members.remove(0);
        proof {
            assert(pre == orig.skip(consumed));
            assert(p == pre[0]);
            assert(p == orig.skip(consumed)[0]);
            assert(orig.skip(consumed)[0] == orig[consumed]);
            assert(members@ =~= orig.skip(consumed + 1));
            let before = persons_vw(orig.take(consumed));
            let after = persons_vw(orig.take(consumed + 1));
            assert(after.drop_last() =~= before);
            assert(after.last() == orig[consumed]@);
            assert(sort_by_spec(after, person_order()) == insort_by(
                sort_by_spec(before, person_order()),
                orig[consumed]@,
                person_order(),
            ));
        }
        insert_person_sorted(&mut out, p);
    }
    proof {
        assert(orig.take(orig.len() as int) =~= orig);
    }
    *members = out;
}

/// Groups are ordered by ascending id: the reserved all-persons group
/// first, the methodology groups next, user groups last.
pub open spec fn group_le(a: GroupWithMembersView, b: GroupWithMembersView) -> bool {
    a.id <= b.id
}

/// The group order as a first-class relation.
pub open spec fn group_order() -> spec_fn(GroupWithMembersView, GroupWithMembersView) -> bool {
    |a: GroupWithMembersView, b: GroupWithMembersView| group_le(a, b)
}

pub proof fn lemma_group_order_total_preorder()
    ensures
        total_preorder(group_order()),
{
}

/// Insert `g` into a vector at the position the stable insertion sort by
/// id assigns to it.
fn insert_group_sorted(v: &mut Vec<GroupWithMembers>, g: GroupWithMembers)
    ensures
        groups_vw(final(v)@) == insort_by(groups_vw(old(v)@), g@, group_order()),
{
    let mut j: usize = 0;
    while j < v.len() && v[j].id <= g.id
        invariant
            j <= v.len(),
            v@ == old(v)@,
            forall|i: int| 0 <= i < j ==> group_le(#[trigger] groups_vw(v@)[i], g@),
        decreases v.len() - j,
    {
        proof {
            assert(groups_vw(v@)[j as int] == v@[j as int]@);
        }
        j = j + 1;
    }
    proof {
        let sv = groups_vw(v@);
        lemma_insort_pos_unique(sv, g@, group_order(), j as int);
        lemma_insort_characterization(sv, g@, group_order());
    }
    let ghost before = v@;
    v.insert(j, g);
    proof {
        let sv = groups_vw(before);
        assert(groups_vw(v@) =~= sv.take(j as int) + seq![g@] + sv.skip(j as int));
    }
}

/// Sort groups by ascending id, stably.
pub fn sort_groups(groups: &mut Vec<GroupWithMembers>)
    ensures
        groups_vw(final(groups)@) == sort_by_spec(groups_vw(old(groups)@), group_order()),
{
    let ghost orig = old(groups)@;
    let mut out: Vec<GroupWithMembers> = Vec::new();
    proof {
        assert(orig.skip(0) =~= orig);
        assert(groups_vw(orig.take(0)).len() == 0);
        assert(groups_vw(out@) =~= sort_by_spec(groups_vw(orig.take(0)), group_order()));
    }
    while groups.len() > 0
        invariant
            groups@.len() <= orig.len(),
            groups@ == orig.skip(orig.len() - groups@.len()),
            groups_vw(out@) == sort_by_spec(
                groups_vw(orig.take(orig.len() - groups@.len())),
                group_order(),
            ),
        decreases groups@.len(),
    {
        let ghost pre = groups@;
        let ghost consumed = orig.len() - pre.len();
        let g = groups.remove(0);
        proof {
            assert(pre == orig.skip(consumed));
            assert(g == pre[0]);
            assert(g == orig.skip(consumed)[0]);
            assert(orig.skip(consumed)[0] == orig[consumed]);
            assert(groups@ =~= orig.skip(consumed + 1));
            let before = groups_vw(orig.take(consumed));
            let after = groups_vw(orig.take(consumed + 1));
            assert(after.drop_last() =~= before);
            assert(after.last() == orig[consumed]@);
            assert(sort_by_spec(after, group_order()) == insort_by(
                sort_by_spec(before, group_order()),
                orig[consumed]@,
                group_order(),
            ));
        }
        insert_group_sorted(&mut out, g);
    }
    proof {
        assert(orig.take(orig.len() as int) =~= orig);
    }
    *groups = out;
}

/// The sort permutes its input: element counts are preserved.
pub proof fn lemma_sort_by_spec_multiset<A>(s: Seq<A>, leq: spec_fn(A, A) -> bool)
    ensures
        sort_by_spec(s, leq).to_multiset() == s.to_multiset(),
    decreases s.len(),
{
    broadcast use vstd::seq_lib::group_to_multiset_ensures;

    if s.len() > 0 {
        let t = s.drop_last();
        let x = s.last();
        lemma_sort_by_spec_multiset(t, leq);
        let inner = sort_by_spec(t, leq);
        lemma_insort_characterization(inner, x, leq);
        let pos = insort_pos(inner, x, leq);
        vstd::seq_lib::lemma_multiset_commutative(inner.take(pos) + seq![x], inner.skip(pos));
        vstd::seq_lib::lemma_multiset_commutative(inner.take(pos), seq![x]);
        vstd::seq_lib::lemma_multiset_commutative(inner.take(pos), inner.skip(pos));
        assert(inner.take(pos) + inner.skip(pos) =~= inner);
        assert(s =~= t.push(x));
        assert(sort_by_spec(s, leq).to_multiset() =~= s.to_multiset()) by {
            assert(seq![x].to_multiset() =~= Multiset::empty().insert(x)) by {
                assert(seq![x] =~= Seq::<A>::empty().push(x));
            }
            assert(sort_by_spec(s, leq).to_multiset() =~= inner.to_multiset().insert(x));
        }
    }
}

} // verus!
