//! Discovery of configuration names under `<HOME>/.kube`.
use crate::order::{lemma_text_le_total_ordering, text_le, text_le_exec, text_order};
use vstd::multiset::*;
use vstd::prelude::*;
use vstd::relations::*;
use vstd::seq_lib::*;
use vstd::string::{StringExecFns, StringSliceAdditionalSpecFns};
use vstd::utf8::*;

verus! {

broadcast use encode_utf8_valid_utf8, encode_utf8_decode_utf8;

/// The bytes of the suffix that every configuration name carries: `.kubeconfig`.
pub open spec fn config_suffix() -> Seq<u8> {
    seq![46u8, 107u8, 117u8, 98u8, 101u8, 99u8, 111u8, 110u8, 102u8, 105u8, 103u8]
}

/// The bytes `b` end with `.kubeconfig`.
pub open spec fn has_config_suffix(b: Seq<u8>) -> bool {
    b.len() >= config_suffix().len() && b.subrange(
        b.len() - config_suffix().len(),
        b.len() as int,
    ) == config_suffix()
}

/// A configuration name: text whose bytes end with `.kubeconfig`.
pub open spec fn is_config_name(n: Seq<char>) -> bool {
    has_config_suffix(encode_utf8(n))
}

/// The index just past the last `/` in `b`, or 0 where `b` holds none.
pub open spec fn slash_end(b: Seq<u8>) -> int
    decreases b.len(),
{
    if b.len() == 0 {
        0
    } else if b.last() == 47u8 {
        b.len() as int
    } else {
        slash_end(b.drop_last())
    }
}

/// The final component of a path: what follows its last `/`.
pub open spec fn base_name_of(path: Seq<char>) -> Seq<char> {
    let b = encode_utf8(path);
    decode_utf8(b.subrange(slash_end(b), b.len() as int))
}

proof fn lemma_slash_end_bounds(b: Seq<u8>)
    ensures
        0 <= slash_end(b) <= b.len(),
        slash_end(b) > 0 ==> b[slash_end(b) - 1] == 47u8,
    decreases b.len(),
{
    if b.len() > 0 && b.last() != 47u8 {
        lemma_slash_end_bounds(b.drop_last());
    }
}

/// The position just after an ASCII `/` in valid UTF-8 starts a character.
proof fn lemma_boundary_after_slash(b: Seq<u8>, i: int)
    requires
        valid_utf8(b),
        0 < i <= b.len(),
        b[i - 1] == 47u8,
    ensures
        is_char_boundary(b, i),
{
    broadcast use is_char_boundary_start_end_of_seq;

    if i < b.len() {
        is_char_boundary_iff_not_is_continuation_byte(b, i - 1);
        valid_utf8_split(b, i - 1);
        let s = b.subrange(i - 1, b.len() as int);
        assert(s[0] == 47u8);
        assert(length_of_first_scalar(s) == 1);
        assert(pop_first_scalar(s) =~= b.subrange(i, b.len() as int));
        reveal_with_fuel(is_char_boundary, 2);
        assert(is_char_boundary(s, 1));
        is_char_boundary_iff_not_is_continuation_byte(s, 1);
        assert(s[1] == b[i]);
        is_char_boundary_iff_not_is_continuation_byte(b, i);
    }
}

/// The final component of `path`: the text after its last `/`.
pub fn base_name(path: &str) -> (r: String)
    ensures
        r@ == base_name_of(path@),
{
    let b = path.as_bytes();
    let ghost bs = encode_utf8(path@);
    let mut i: usize = b.len();
    assert(b@.subrange(0, b@.len() as int) =~= b@);
    while i > 0 && b[i - 1] != 47u8
        invariant
            b@ == bs,
            i <= b@.len(),
            slash_end(bs) == slash_end(bs.subrange(0, i as int)),
        decreases i,
    {
        assert(bs.subrange(0, i as int).drop_last() =~= bs.subrange(0, i - 1));
        i = i - 1;
    }
    proof {
        if i > 0 {
            assert(bs.subrange(0, i as int).last() == 47u8);
        } else {
            assert(bs.subrange(0, 0).len() == 0);
        }
        if i > 0 {
            lemma_boundary_after_slash(bs, i as int);
        }
    }
    let (_, tail) = path.split_at(i);
    proof {
        valid_utf8_split(bs, i as int);
        decode_utf8_encode_utf8(tail.spec_bytes());
    }
    tail.to_owned()
}

/// Whether the bytes `b` end with `.kubeconfig`.
pub fn ends_with_config_suffix(b: &[u8]) -> (r: bool)
    ensures
        r == has_config_suffix(b@),
{
    let suffix: [u8; 11] = [46u8, 107u8, 117u8, 98u8, 101u8, 99u8, 111u8, 110u8, 102u8, 105u8, 103u8];
    assert(suffix@ =~= config_suffix());
    if b.len() < 11 {
        return false;
    }
    let start: usize = b.len() - 11;
    let mut k: usize = 0;
    while k < 11
        invariant
            start + 11 == b@.len(),
            b@.len() <= usize::MAX,
            k <= 11,
            suffix@ == config_suffix(),
            forall|j: int| 0 <= j < k ==> b@[start + j] == suffix@[j],
        decreases 11 - k,
    {
        if b[start + k] != suffix[k] {
            assert(b@.subrange(start as int, b@.len() as int)[k as int] != config_suffix()[k as int]);
            return false;
        }
        k = k + 1;
    }
    assert(b@.subrange(start as int, b@.len() as int) =~= config_suffix());
    true
}

/// Whether `name` is a configuration name.
pub fn is_config_name_exec(name: &String) -> (r: bool)
    ensures
        r == is_config_name(name@),
{
    ends_with_config_suffix(name.as_str().as_bytes())
}

/// The texts that a sequence of strings holds.
pub open spec fn views(v: Seq<String>) -> Seq<Seq<char>> {
    v.map_values(|s: String| s@)
}

/// The configuration names among the base names of `paths`, in the order of
/// `paths`; an entry that is `None` (unreadable, or not text) is skipped.
pub open spec fn candidates(paths: Seq<Option<String>>) -> Seq<Seq<char>>
    decreases paths.len(),
{
    if paths.len() == 0 {
        seq![]
    } else {
        let rest = candidates(paths.drop_last());
        match paths.last() {
            Some(p) => if is_config_name(base_name_of(p@)) {
                rest.push(base_name_of(p@))
            } else {
                rest
            },
            None => rest,
        }
    }
}

/// The listing that discovery makes of `paths`: their configuration names,
/// ascending by bytes.
pub open spec fn listing_of(paths: Seq<Option<String>>) -> Seq<Seq<char>> {
    candidates(paths).sort_by(text_order())
}

/// Inserts `x` into the sorted `v`, keeping it sorted.
fn insert_sorted(v: &mut Vec<String>, x: String)
    requires
        sorted_by(views(old(v)@), text_order()),
        old(v)@.len() < usize::MAX,
    ensures
        final(v)@.len() == old(v)@.len() + 1,
        sorted_by(views(final(v)@), text_order()),
        views(final(v)@).to_multiset() == views(old(v)@).to_multiset().insert(x@),
{
    proof {
        lemma_text_le_total_ordering();
    }
    let ghost le = text_order();
    let mut j: usize = 0;
    while j < v.len() && text_le_exec(&v[j], &x)
        invariant
            j <= v@.len(),
            v@ == old(v)@,
            forall|k: int| 0 <= k < j ==> text_le(#[trigger] v@[k]@, x@),
        decreases v@.len() - j,
    {
        j = j + 1;
    }
    let ghost before = views(v@);
    v.insert(j, x);
    proof {
        let after = views(v@);
        assert(after =~= before.insert(j as int, x@));
        assert forall|a: int, b: int| 0 <= a < b < after.len() implies #[trigger] le(
            after[a],
            after[b],
        ) by {
            if b < j {
                assert(le(before[a], before[b]));
            } else if a < j && b == j {
                assert(text_le(old(v)@[a]@, x@));
            } else if a < j {
                assert(text_le(old(v)@[a]@, x@));
                assert(le(before[j as int], before[b - 1]));
                assert(!le(before[j as int], x@));
                assert(le(x@, before[j as int]));
            } else if a == j {
                assert(!le(before[j as int], x@));
                assert(le(x@, before[j as int]));
                if b - 1 > j {
                    assert(le(before[j as int], before[b - 1]));
                }
            } else {
                assert(le(before[a - 1], before[b - 1]));
            }
        }
        broadcast use group_to_multiset_ensures;

        assert(after.remove(j as int) =~= before);
        assert(after[j as int] == x@);
        assert(after.to_multiset().remove(x@) =~= before.to_multiset());
        assert(after.to_multiset().count(x@) > 0);
        assert(after.to_multiset() =~= before.to_multiset().insert(x@));
    }
}

/// The configuration names among the base names of `paths`, sorted
/// ascending by bytes.
pub fn names_from_paths(paths: &Vec<Option<String>>) -> (r: Vec<String>)
    ensures
        views(r@) == listing_of(paths@),
{
    let mut r: Vec<String> = Vec::new();
    let mut i: usize = 0;
    assert(paths@.subrange(0, 0) =~= Seq::<Option<String>>::empty());
    assert(views(r@) =~= Seq::<Seq<char>>::empty());
    while i < paths.len()
        invariant
            i <= paths@.len(),
            r@.len() <= i,
            sorted_by(views(r@), text_order()),
            views(r@).to_multiset() == candidates(paths@.subrange(0, i as int)).to_multiset(),
        decreases paths@.len() - i,
    {
        let ghost pre = paths@.subrange(0, i as int);
        let ghost next = paths@.subrange(0, i + 1);
        assert(next.drop_last() =~= pre);
        match &paths[i] {
            Some(p) => {
                let n = base_name(p.as_str());
                if is_config_name_exec(&n) {
                    proof {
                        broadcast use group_to_multiset_ensures;

                    }
                    insert_sorted(&mut r, n);
                }
            },
            None => {},
        }
        i = i + 1;
    }
    proof {
        assert(paths@.subrange(0, paths@.len() as int) =~= paths@);
        lemma_text_le_total_ordering();
        candidates(paths@).lemma_sort_by_ensures(text_order());
        lemma_sorted_unique(views(r@), listing_of(paths@), text_order());
    }
    r
}

/// The pattern whose matches are the candidate files: `<home>/.kube/*.kubeconfig`.
pub fn kubeconfig_pattern(home: &str) -> (r: String)
    ensures
        r@ == home@ + "/.kube/*.kubeconfig"@,
{
    let mut r = home.to_owned();
    r.append("/.kube/*.kubeconfig");
    r
}

/// Relies on glob::glob: an invalid pattern gives `None`; otherwise each entry
/// that the walk yields comes back, in the walk's order, as `Some` with the
/// path's text where the path is valid UTF-8, and as `None` where it is not or
/// where the walk reported an error for it. What is on disk decides the
/// entries, so nothing is promised of them.
#[verifier::external_body]
fn glob_paths(pattern: &str) -> (r: Option<Vec<Option<String>>>) {
    match glob::glob(pattern) {
        Ok(paths) => Some(
            paths.map(|e| e.ok().and_then(|p| p.into_os_string().into_string().ok())).collect(),
        ),
        Err(_) => None,
    }
}

/// The configuration names in `<home>/.kube`, sorted ascending by bytes.
/// Without a home, or with an empty one, there are none; an invalid pattern
/// or an unreadable directory gives none either. Discovery never fails.
pub fn discover(home: Option<&str>) -> (r: Vec<String>)
    ensures
        (home.is_none() || home.unwrap()@.len() == 0) ==> r@.len() == 0,
        exists|paths: Seq<Option<String>>| views(r@) == #[trigger] listing_of(paths),
        sorted_by(views(r@), text_order()),
        forall|i: int| 0 <= i < r@.len() ==> is_config_name(#[trigger] r@[i]@),
{
    let found = match home {
        Some(h) => if h.len() == 0 {
            None
        } else {
            glob_paths(kubeconfig_pattern(h).as_str())
        },
        None => None,
    };
    let paths: Vec<Option<String>> = match found {
        Some(v) => v,
        None => Vec::new(),
    };
    let r = names_from_paths(&paths);
    proof {
        lemma_listing_sorted_names(paths@);
        assert forall|i: int| 0 <= i < r@.len() implies is_config_name(#[trigger] r@[i]@) by {
            assert(views(r@)[i] == r@[i]@);
        }
    }
    r
}

/// Every listing is sorted ascending by bytes and holds configuration names
/// only; with no paths it is empty.
pub proof fn lemma_listing_sorted_names(paths: Seq<Option<String>>)
    ensures
        sorted_by(listing_of(paths), text_order()),
        forall|i: int|
            0 <= i < listing_of(paths).len() ==> is_config_name(#[trigger] listing_of(paths)[i]),
        paths.len() == 0 ==> listing_of(paths).len() == 0,
{
    lemma_text_le_total_ordering();
    candidates(paths).lemma_sort_by_ensures(text_order());
    lemma_candidates_are_names(paths);
    broadcast use group_to_multiset_ensures;

    assert forall|i: int| 0 <= i < listing_of(paths).len() implies is_config_name(
        #[trigger] listing_of(paths)[i],
    ) by {
        let n = listing_of(paths)[i];
        assert(listing_of(paths).contains(n));
        assert(candidates(paths).contains(n));
    }
    if paths.len() == 0 {
        assert(candidates(paths).to_multiset().len() == 0);
    }
}

proof fn lemma_candidates_are_names(paths: Seq<Option<String>>)
    ensures
        forall|i: int|
            0 <= i < candidates(paths).len() ==> is_config_name(#[trigger] candidates(paths)[i]),
    decreases paths.len(),
{
    if paths.len() > 0 {
        lemma_candidates_are_names(paths.drop_last());
        let rest = candidates(paths.drop_last());
        assert forall|i: int| 0 <= i < candidates(paths).len() implies is_config_name(
            #[trigger] candidates(paths)[i],
        ) by {
            if i < rest.len() {
                assert(candidates(paths)[i] == rest[i]);
            }
        }
    }
}

/// What one walked entry adds to the candidates: its base name, where that
/// is a configuration name.
pub open spec fn contribution(e: Option<String>) -> Multiset<Seq<char>> {
    match e {
        Some(p) => if is_config_name(base_name_of(p@)) {
            Multiset::singleton(base_name_of(p@))
        } else {
            Multiset::empty()
        },
        None => Multiset::empty(),
    }
}

proof fn lemma_candidates_last(s: Seq<Option<String>>)
    requires
        s.len() > 0,
    ensures
        candidates(s).to_multiset() =~= candidates(s.drop_last()).to_multiset().add(
            contribution(s.last()),
        ),
{
    broadcast use group_to_multiset_ensures;

}

proof fn lemma_candidates_remove(s: Seq<Option<String>>, k: int)
    requires
        0 <= k < s.len(),
    ensures
        candidates(s).to_multiset() =~= candidates(s.remove(k)).to_multiset().add(
            contribution(s[k]),
        ),
    decreases s.len(),
{
    lemma_candidates_last(s);
    if k == s.len() - 1 {
        assert(s.remove(k) =~= s.drop_last());
    } else {
        let t = s.remove(k);
        assert(t.drop_last() =~= s.drop_last().remove(k));
        assert(t.last() == s.last());
        lemma_candidates_remove(s.drop_last(), k);
        lemma_candidates_last(t);
    }
}

proof fn lemma_candidates_permutation(walk_a: Seq<Option<String>>, walk_b: Seq<Option<String>>)
    requires
        walk_a.to_multiset() == walk_b.to_multiset(),
    ensures
        candidates(walk_a).to_multiset() =~= candidates(walk_b).to_multiset(),
    decreases walk_a.len(),
{
    broadcast use group_to_multiset_ensures;

    if walk_a.len() == 0 {
        assert(walk_b.to_multiset().len() == 0);
        assert(walk_b.len() == 0);
    } else {
        let e = walk_a.last();
        assert(walk_a.drop_last().push(e) =~= walk_a);
        assert(walk_b.to_multiset().count(e) > 0);
        assert(walk_b.contains(e));
        let k = choose|k: int| 0 <= k < walk_b.len() && walk_b[k] == e;
        assert(walk_b.remove(k).to_multiset() =~= walk_b.to_multiset().remove(e));
        assert(walk_a.drop_last().to_multiset() =~= walk_a.to_multiset().remove(e));
        lemma_candidates_permutation(walk_a.drop_last(), walk_b.remove(k));
        lemma_candidates_last(walk_a);
        lemma_candidates_remove(walk_b, k);
    }
}

/// The listing depends on which paths the walk yields, not on the order in
/// which it yields them: a walk of the same directory lists the same names.
pub proof fn lemma_listing_order_independent(walk_a: Seq<Option<String>>, walk_b: Seq<Option<String>>)
    requires
        walk_a.to_multiset() == walk_b.to_multiset(),
    ensures
        listing_of(walk_a) == listing_of(walk_b),
{
    lemma_candidates_permutation(walk_a, walk_b);
    lemma_text_le_total_ordering();
    candidates(walk_a).lemma_sort_by_ensures(text_order());
    candidates(walk_b).lemma_sort_by_ensures(text_order());
    lemma_sorted_unique(listing_of(walk_a), listing_of(walk_b), text_order());
}

} // verus!
