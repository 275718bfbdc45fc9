//! Autosquash pre-processing for interactive rebase todo lists.
//!
//! A commit whose subject starts with `fixup! ` or `squash! ` is moved right
//! after the first other entry whose subject equals the rest of its subject
//! (both trimmed), and its action becomes `fixup` or `squash`; commits aimed
//! at the same entry keep their order. A commit whose target is not found
//! stays where it is, with its action. Applying the reordering twice gives
//! the same list as applying it once.
use crate::text::{
    char_range, chars_of, chars_start_with, same_chars, starts_with, trim, trim_vec, trimmed_chars,
};
use vstd::prelude::*;

verus! {

/// One line of an interactive rebase todo list.
pub struct RebaseTodoItem {
    pub action: String,
    pub commit: String,
    pub message: String,
}

/// A todo line as three character sequences: action, commit, message.
pub type TodoView = (Seq<char>, Seq<char>, Seq<char>);

impl View for RebaseTodoItem {
    type V = TodoView;

    open spec fn view(&self) -> TodoView {
        (self.action@, self.commit@, self.message@)
    }
}

/// The views of a list of todo lines.
pub open spec fn todo_views(v: Seq<RebaseTodoItem>) -> Seq<TodoView> {
    v.map_values(|t: RebaseTodoItem| t@)
}

pub open spec fn fixup_prefix() -> Seq<char> {
    seq!['f', 'i', 'x', 'u', 'p', '!', ' ']
}

pub open spec fn squash_prefix() -> Seq<char> {
    seq!['s', 'q', 'u', 'a', 's', 'h', '!', ' ']
}

/// The subject a `fixup! ` / `squash! ` message points at.
pub open spec fn autosquash_target(message: Seq<char>) -> Option<Seq<char>> {
    if starts_with(message, fixup_prefix()) {
        Some(message.subrange(7, message.len() as int))
    } else if starts_with(message, squash_prefix()) {
        Some(message.subrange(8, message.len() as int))
    } else {
        None
    }
}

/// Whether a line is an autosquash candidate: its subject starts with
/// `fixup! ` or `squash! `.
pub open spec fn is_candidate(t: TodoView) -> bool {
    autosquash_target(t.2) is Some
}

/// The trimmed subject a candidate points at.
pub open spec fn target_key(t: TodoView) -> Seq<char> {
    trim(autosquash_target(t.2)->0)
}

/// Whether `items` holds a line that is not a candidate and whose trimmed
/// subject is `key`.
pub open spec fn has_base_with(items: Seq<TodoView>, key: Seq<char>) -> bool {
    exists|i: int| 0 <= i < items.len() && !is_candidate(#[trigger] items[i]) && trim(items[i].2) == key
}

/// The action a matched candidate takes.
pub open spec fn squash_action(message: Seq<char>) -> Seq<char> {
    if starts_with(message, fixup_prefix()) {
        seq!['f', 'i', 'x', 'u', 'p']
    } else {
        seq!['s', 'q', 'u', 'a', 's', 'h']
    }
}

/// A matched candidate with its new action.
pub open spec fn squashed(t: TodoView) -> TodoView {
    (squash_action(t.2), t.1, t.2)
}

/// The candidates of `items` aimed at `key`, in order, with their new action.
pub open spec fn followers(items: Seq<TodoView>, key: Seq<char>) -> Seq<TodoView>
    decreases items.len(),
{
    if items.len() == 0 {
        Seq::empty()
    } else {
        let h = items[0];
        let rest = followers(items.drop_first(), key);
        if is_candidate(h) && target_key(h) == key {
            seq![squashed(h)] + rest
        } else {
            rest
        }
    }
}

/// Walks `s` in order: a line that is not a candidate is kept, and the first
/// one with a given trimmed subject (one not in `seen`) is followed by the
/// candidates of `all` aimed at it; a candidate whose target is in `all` is
/// left out here (it follows its target), and any other candidate is kept.
pub open spec fn arrange(s: Seq<TodoView>, all: Seq<TodoView>, seen: Seq<Seq<char>>) -> Seq<TodoView>
    decreases s.len(),
{
    if s.len() == 0 {
        Seq::empty()
    } else {
        let h = s[0];
        let rest = s.drop_first();
        if !is_candidate(h) {
            let k = trim(h.2);
            if seen.contains(k) {
                seq![h] + arrange(rest, all, seen)
            } else {
                seq![h] + followers(all, k) + arrange(rest, all, seen.push(k))
            }
        } else if has_base_with(all, target_key(h)) {
            arrange(rest, all, seen)
        } else {
            seq![h] + arrange(rest, all, seen)
        }
    }
}

/// The reordered todo list.
pub open spec fn spec_apply_autosquash(items: Seq<TodoView>) -> Seq<TodoView> {
    arrange(items, items, Seq::empty())
}

proof fn lemma_base_concat(a: Seq<TodoView>, b: Seq<TodoView>, k: Seq<char>)
    ensures
        has_base_with(a + b, k) == (has_base_with(a, k) || has_base_with(b, k)),
{
    let ab = a + b;
    if has_base_with(ab, k) {
        let i = choose|i: int| 0 <= i < ab.len() && !is_candidate(#[trigger] ab[i]) && trim(ab[i].2) == k;
        if i < a.len() {
            assert(ab[i] == a[i]);
        } else {
            assert(ab[i] == b[i - a.len()]);
        }
    }
    if has_base_with(a, k) {
        let i = choose|i: int| 0 <= i < a.len() && !is_candidate(#[trigger] a[i]) && trim(a[i].2) == k;
        assert(ab[i] == a[i]);
    }
    if has_base_with(b, k) {
        let i = choose|i: int| 0 <= i < b.len() && !is_candidate(#[trigger] b[i]) && trim(b[i].2) == k;
        assert(ab[a.len() + i] == b[i]);
    }
}

proof fn lemma_base_single(h: TodoView, k: Seq<char>)
    ensures
        has_base_with(seq![h], k) == (!is_candidate(h) && trim(h.2) == k),
{
    if !is_candidate(h) && trim(h.2) == k {
        assert(seq![h][0] == h);
    }
}

proof fn lemma_base_split(s: Seq<TodoView>, k: Seq<char>)
    requires
        s.len() > 0,
    ensures
        has_base_with(s, k) == ((!is_candidate(s[0]) && trim(s[0].2) == k) || has_base_with(s.drop_first(), k)),
{
    assert(s =~= seq![s[0]] + s.drop_first());
    lemma_base_concat(seq![s[0]], s.drop_first(), k);
    lemma_base_single(s[0], k);
}

proof fn lemma_followers_concat(a: Seq<TodoView>, b: Seq<TodoView>, k: Seq<char>)
    ensures
        followers(a + b, k) == followers(a, k) + followers(b, k),
    decreases a.len(),
{
    if a.len() == 0 {
        assert(a + b =~= b);
        assert(followers(a, k) + followers(b, k) =~= followers(b, k));
    } else {
        assert((a + b)[0] == a[0]);
        assert((a + b).drop_first() =~= a.drop_first() + b);
        lemma_followers_concat(a.drop_first(), b, k);
        if is_candidate(a[0]) && target_key(a[0]) == k {
            assert(seq![squashed(a[0])] + (followers(a.drop_first(), k) + followers(b, k)) =~= (seq![squashed(a[0])]
                + followers(a.drop_first(), k)) + followers(b, k));
        }
    }
}

proof fn lemma_followers_single(h: TodoView, k: Seq<char>)
    ensures
        followers(seq![h], k) == if is_candidate(h) && target_key(h) == k {
            seq![squashed(h)]
        } else {
            Seq::<TodoView>::empty()
        },
{
    let one = seq![h];
    assert(one[0] == h);
    assert(one.drop_first() =~= Seq::<TodoView>::empty());
    assert(followers(one.drop_first(), k) == Seq::<TodoView>::empty());
    assert(seq![squashed(h)] + Seq::<TodoView>::empty() =~= seq![squashed(h)]);
}

proof fn lemma_followers_are_candidates(items: Seq<TodoView>, k: Seq<char>)
    ensures
        forall|i: int|
            0 <= i < followers(items, k).len() ==> is_candidate(#[trigger] followers(items, k)[i]) && target_key(
                followers(items, k)[i],
            ) == k,
    decreases items.len(),
{
    if items.len() > 0 {
        lemma_followers_are_candidates(items.drop_first(), k);
        let rest = followers(items.drop_first(), k);
        if is_candidate(items[0]) && target_key(items[0]) == k {
            assert forall|i: int| 0 <= i < followers(items, k).len() implies is_candidate(
                #[trigger] followers(items, k)[i],
            ) && target_key(followers(items, k)[i]) == k by {
                if i > 0 {
                    assert(followers(items, k)[i] == rest[i - 1]);
                }
            }
        }
    }
}

proof fn lemma_no_base_in_followers(items: Seq<TodoView>, k: Seq<char>, key: Seq<char>)
    ensures
        !has_base_with(followers(items, k), key),
{
    lemma_followers_are_candidates(items, k);
}

/// Taking the followers of a list of followers keeps it when aimed at the same
/// subject and gives nothing otherwise.
proof fn lemma_followers_of_followers(items: Seq<TodoView>, k: Seq<char>, key: Seq<char>)
    ensures
        followers(followers(items, k), key) == if key == k {
            followers(items, k)
        } else {
            Seq::<TodoView>::empty()
        },
    decreases items.len(),
{
    if items.len() > 0 {
        lemma_followers_of_followers(items.drop_first(), k, key);
        let h = items[0];
        let rest = followers(items.drop_first(), k);
        if is_candidate(h) && target_key(h) == k {
            lemma_followers_concat(seq![squashed(h)], rest, key);
            lemma_followers_single(squashed(h), key);
            if key == k {
                assert(squashed(squashed(h)) == squashed(h));
            } else {
                assert(Seq::<TodoView>::empty() + Seq::<TodoView>::empty() =~= Seq::<TodoView>::empty());
            }
        }
    }
}

/// Walking a run of matched candidates adds nothing.
proof fn lemma_arrange_skips_matched(g: Seq<TodoView>, t: Seq<TodoView>, all: Seq<TodoView>, seen: Seq<Seq<char>>)
    requires
        forall|i: int| 0 <= i < g.len() ==> is_candidate(#[trigger] g[i]) && has_base_with(all, target_key(g[i])),
    ensures
        arrange(g + t, all, seen) == arrange(t, all, seen),
    decreases g.len(),
{
    if g.len() == 0 {
        assert(g + t =~= t);
    } else {
        assert((g + t)[0] == g[0]);
        assert((g + t).drop_first() =~= g.drop_first() + t);
        assert forall|i: int| 0 <= i < g.drop_first().len() implies is_candidate(#[trigger] g.drop_first()[i])
            && has_base_with(all, target_key(g.drop_first()[i])) by {
            assert(g.drop_first()[i] == g[i + 1]);
        }
        lemma_arrange_skips_matched(g.drop_first(), t, all, seen);
    }
}

/// The lines of the result that are not candidates are those of the input.
proof fn lemma_arrange_bases(s: Seq<TodoView>, all: Seq<TodoView>, seen: Seq<Seq<char>>, key: Seq<char>)
    ensures
        has_base_with(arrange(s, all, seen), key) == has_base_with(s, key),
    decreases s.len(),
{
    if s.len() > 0 {
        let h = s[0];
        let rest = s.drop_first();
        lemma_base_split(s, key);
        lemma_base_single(h, key);
        if !is_candidate(h) {
            let k = trim(h.2);
            if seen.contains(k) {
                lemma_arrange_bases(rest, all, seen, key);
                lemma_base_concat(seq![h], arrange(rest, all, seen), key);
            } else {
                lemma_arrange_bases(rest, all, seen.push(k), key);
                lemma_base_concat(seq![h] + followers(all, k), arrange(rest, all, seen.push(k)), key);
                lemma_base_concat(seq![h], followers(all, k), key);
                lemma_no_base_in_followers(all, k, key);
            }
        } else if has_base_with(all, target_key(h)) {
            lemma_arrange_bases(rest, all, seen, key);
        } else {
            lemma_arrange_bases(rest, all, seen, key);
            lemma_base_concat(seq![h], arrange(rest, all, seen), key);
        }
    }
}

/// The candidates of the result aimed at a subject that `all` holds are the
/// followers of that subject, once its first line has been walked.
proof fn lemma_arrange_followers(s: Seq<TodoView>, all: Seq<TodoView>, seen: Seq<Seq<char>>, key: Seq<char>)
    requires
        has_base_with(all, key),
    ensures
        followers(arrange(s, all, seen), key) == if !seen.contains(key) && has_base_with(s, key) {
            followers(all, key)
        } else {
            Seq::<TodoView>::empty()
        },
    decreases s.len(),
{
    if s.len() > 0 {
        let h = s[0];
        let rest = s.drop_first();
        lemma_base_split(s, key);
        if !is_candidate(h) {
            let k = trim(h.2);
            lemma_followers_single(h, key);
            if seen.contains(k) {
                lemma_arrange_followers(rest, all, seen, key);
                lemma_followers_concat(seq![h], arrange(rest, all, seen), key);
                assert(Seq::<TodoView>::empty() + followers(arrange(rest, all, seen), key) =~= followers(
                    arrange(rest, all, seen),
                    key,
                ));
            } else {
                let seen2 = seen.push(k);
                lemma_arrange_followers(rest, all, seen2, key);
                lemma_followers_concat(seq![h] + followers(all, k), arrange(rest, all, seen2), key);
                lemma_followers_concat(seq![h], followers(all, k), key);
                lemma_followers_of_followers(all, k, key);
                assert(seen2.contains(key) == (seen.contains(key) || key == k)) by {
                    if key == k {
                        assert(seen2[seen.len() as int] == k);
                    }
                    if seen2.contains(key) && key != k {
                        let j = choose|j: int| 0 <= j < seen2.len() && seen2[j] == key;
                        assert(seen[j] == key);
                    }
                    if seen.contains(key) {
                        let j = choose|j: int| 0 <= j < seen.len() && seen[j] == key;
                        assert(seen2[j] == key);
                    }
                }
                let e = Seq::<TodoView>::empty();
                if key == k {
                    assert(e + followers(all, k) + e =~= followers(all, k));
                } else {
                    assert(e + e + followers(arrange(rest, all, seen2), key) =~= followers(arrange(rest, all, seen2), key));
                }
            }
        } else if has_base_with(all, target_key(h)) {
            lemma_arrange_followers(rest, all, seen, key);
        } else {
            lemma_arrange_followers(rest, all, seen, key);
            lemma_followers_concat(seq![h], arrange(rest, all, seen), key);
            lemma_followers_single(h, key);
            assert(Seq::<TodoView>::empty() + followers(arrange(rest, all, seen), key) =~= followers(
                arrange(rest, all, seen),
                key,
            ));
        }
    }
}

/// Walking the result again, against a list with the same lines that are not
/// candidates and the same followers for each of them, gives the result back.
proof fn lemma_arrange_stable(s: Seq<TodoView>, all: Seq<TodoView>, again: Seq<TodoView>, seen: Seq<Seq<char>>)
    requires
        forall|i: int| 0 <= i < s.len() && !is_candidate(#[trigger] s[i]) ==> has_base_with(all, trim(s[i].2)),
        forall|k: Seq<char>| has_base_with(again, k) == has_base_with(all, k),
        forall|k: Seq<char>| has_base_with(all, k) ==> followers(again, k) == followers(all, k),
    ensures
        arrange(arrange(s, all, seen), again, seen) == arrange(s, all, seen),
    decreases s.len(),
{
    if s.len() > 0 {
        let h = s[0];
        let rest = s.drop_first();
        assert forall|i: int| 0 <= i < rest.len() && !is_candidate(#[trigger] rest[i]) implies has_base_with(
            all,
            trim(rest[i].2),
        ) by {
            assert(rest[i] == s[i + 1]);
        }
        if !is_candidate(h) {
            let k = trim(h.2);
            if seen.contains(k) {
                lemma_arrange_stable(rest, all, again, seen);
                let w = seq![h] + arrange(rest, all, seen);
                assert(w[0] == h);
                assert(w.drop_first() =~= arrange(rest, all, seen));
            } else {
                let seen2 = seen.push(k);
                lemma_arrange_stable(rest, all, again, seen2);
                let f = followers(all, k);
                let r = arrange(rest, all, seen2);
                let w = seq![h] + f + r;
                assert(w[0] == h);
                assert(w.drop_first() =~= f + r);
                lemma_followers_are_candidates(all, k);
                assert forall|i: int| 0 <= i < f.len() implies is_candidate(#[trigger] f[i]) && has_base_with(
                    again,
                    target_key(f[i]),
                ) by {}
                lemma_arrange_skips_matched(f, r, again, seen2);
            }
        } else if has_base_with(all, target_key(h)) {
            lemma_arrange_stable(rest, all, again, seen);
        } else {
            lemma_arrange_stable(rest, all, again, seen);
            let w = seq![h] + arrange(rest, all, seen);
            assert(w[0] == h);
            assert(w.drop_first() =~= arrange(rest, all, seen));
        }
    }
}

/// Autosquash is idempotent: reordering an already reordered list changes
/// nothing.
pub proof fn lemma_autosquash_idempotent(items: Seq<TodoView>)
    ensures
        spec_apply_autosquash(spec_apply_autosquash(items)) == spec_apply_autosquash(items),
{
    let e = Seq::<Seq<char>>::empty();
    let once = arrange(items, items, e);
    assert forall|k: Seq<char>| has_base_with(once, k) == has_base_with(items, k) by {
        lemma_arrange_bases(items, items, e, k);
    }
    assert forall|k: Seq<char>| has_base_with(items, k) implies followers(once, k) == followers(items, k) by {
        lemma_arrange_followers(items, items, e, k);
    }
    assert forall|i: int| 0 <= i < items.len() && !is_candidate(#[trigger] items[i]) implies has_base_with(
        items,
        trim(items[i].2),
    ) by {}
    lemma_arrange_stable(items, items, once, e);
}

proof fn lemma_no_followers(items: Seq<TodoView>, k: Seq<char>)
    requires
        forall|i: int| 0 <= i < items.len() ==> !is_candidate(#[trigger] items[i]),
    ensures
        followers(items, k) == Seq::<TodoView>::empty(),
    decreases items.len(),
{
    if items.len() > 0 {
        assert forall|i: int| 0 <= i < items.drop_first().len() implies !is_candidate(#[trigger] items.drop_first()[i]) by {
            assert(items.drop_first()[i] == items[i + 1]);
        }
        lemma_no_followers(items.drop_first(), k);
    }
}

proof fn lemma_arrange_without_candidates(s: Seq<TodoView>, all: Seq<TodoView>, seen: Seq<Seq<char>>)
    requires
        forall|i: int| 0 <= i < s.len() ==> !is_candidate(#[trigger] s[i]),
        forall|i: int| 0 <= i < all.len() ==> !is_candidate(#[trigger] all[i]),
    ensures
        arrange(s, all, seen) == s,
    decreases s.len(),
{
    if s.len() > 0 {
        let h = s[0];
        let rest = s.drop_first();
        assert forall|i: int| 0 <= i < rest.len() implies !is_candidate(#[trigger] rest[i]) by {
            assert(rest[i] == s[i + 1]);
        }
        let k = trim(h.2);
        lemma_no_followers(all, k);
        lemma_arrange_without_candidates(rest, all, seen);
        lemma_arrange_without_candidates(rest, all, seen.push(k));
        assert(seq![h] + rest =~= s);
        assert(seq![h] + Seq::<TodoView>::empty() + rest =~= s);
    }
}

/// A list without any `fixup! ` or `squash! ` subject comes back unchanged.
pub proof fn lemma_autosquash_without_candidates_is_identity(items: Seq<TodoView>)
    requires
        forall|k: int| 0 <= k < items.len() ==> autosquash_target(#[trigger] items[k].2) is None,
    ensures
        spec_apply_autosquash(items) == items,
{
    assert forall|i: int| 0 <= i < items.len() implies !is_candidate(#[trigger] items[i]) by {
        assert(autosquash_target(items[i].2) is None);
    }
    lemma_arrange_without_candidates(items, items, Seq::empty());
}

/// The target subject of a message, as characters.
fn target_of(message: &str) -> (r: Option<Vec<char>>)
    ensures
        match r {
            Some(t) => autosquash_target(message@) == Some(t@),
            None => autosquash_target(message@) is None,
        },
{
    let v = chars_of(message);
    proof {
        reveal_strlit("fixup! ");
        reveal_strlit("squash! ");
        assert("fixup! "@ == fixup_prefix());
        assert("squash! "@ == squash_prefix());
    }
    if chars_start_with(&v, "fixup! ") {
        Some(char_range(&v, 7, v.len()))
    } else if chars_start_with(&v, "squash! ") {
        Some(char_range(&v, 8, v.len()))
    } else {
        None
    }
}

/// The views of a list of keys.
pub open spec fn key_views(v: Seq<Vec<char>>) -> Seq<Seq<char>> {
    v.map_values(|k: Vec<char>| k@)
}

fn copy_item(t: &RebaseTodoItem) -> (r: RebaseTodoItem)
    ensures
        r@ == t@,
{
    RebaseTodoItem { action: t.action.clone(), commit: t.commit.clone(), message: t.message.clone() }
}

fn squashed_copy(t: &RebaseTodoItem) -> (r: RebaseTodoItem)
    ensures
        r@ == squashed(t@),
{
    let mv = chars_of(t.message.as_str());
    proof {
        reveal_strlit("fixup! ");
        reveal_strlit("fixup");
        reveal_strlit("squash");
        assert("fixup! "@ == fixup_prefix());
        assert("fixup"@ == seq!['f', 'i', 'x', 'u', 'p']);
        assert("squash"@ == seq!['s', 'q', 'u', 'a', 's', 'h']);
    }
    let action = if chars_start_with(&mv, "fixup! ") {
        String::from_str("fixup")
    } else {
        String::from_str("squash")
    };
    RebaseTodoItem { action, commit: t.commit.clone(), message: t.message.clone() }
}

fn key_listed(keys: &Vec<Vec<char>>, k: &Vec<char>) -> (r: bool)
    ensures
        r == key_views(keys@).contains(k@),
{
    let ghost kv = key_views(keys@);
    let mut j: usize = 0;
    while j < keys.len()
        invariant
            kv == key_views(keys@),
            j <= keys@.len(),
            forall|m: int| 0 <= m < j ==> kv[m] != k@,
        decreases keys@.len() - j,
    {
        assert(kv[j as int] == keys@[j as int]@);
        if same_chars(&keys[j], k) {
            assert(kv[j as int] == k@);
            return true;
        }
        j = j + 1;
    }
    false
}

/// What the walk over the todo list reads of each line: whether it is a
/// candidate and what it aims at, and its trimmed subject.
pub open spec fn keys_describe(items: Seq<TodoView>, tkeys: Seq<Option<Vec<char>>>, subjects: Seq<Vec<char>>) -> bool {
    &&& tkeys.len() == items.len()
    &&& subjects.len() == items.len()
    &&& forall|k: int| 0 <= k < items.len() ==> ((#[trigger] tkeys[k]) is Some) == is_candidate(items[k])
    &&& forall|k: int| 0 <= k < items.len() && (#[trigger] tkeys[k]) is Some ==> tkeys[k]->0@ == target_key(items[k])
    &&& forall|k: int| 0 <= k < items.len() ==> (#[trigger] subjects[k])@ == trim(items[k].2)
}

fn has_base_key(
    tkeys: &Vec<Option<Vec<char>>>,
    subjects: &Vec<Vec<char>>,
    key: &Vec<char>,
    Ghost(items): Ghost<Seq<TodoView>>,
) -> (r: bool)
    requires
        keys_describe(items, tkeys@, subjects@),
    ensures
        r == has_base_with(items, key@),
{
    let mut j: usize = 0;
    while j < tkeys.len()
        invariant
            keys_describe(items, tkeys@, subjects@),
            j <= tkeys@.len(),
            forall|m: int| 0 <= m < j ==> !(!is_candidate(#[trigger] items[m]) && trim(items[m].2) == key@),
        decreases tkeys@.len() - j,
    {
        assert(tkeys@[j as int] is Some == is_candidate(items[j as int]));
        assert(subjects@[j as int]@ == trim(items[j as int].2));
        if tkeys[j].is_none() && same_chars(&subjects[j], key) {
            assert(!is_candidate(items[j as int]) && trim(items[j as int].2) == key@);
            return true;
        }
        j = j + 1;
    }
    false
}

fn push_followers(
    out: &mut Vec<RebaseTodoItem>,
    todos: &Vec<RebaseTodoItem>,
    tkeys: &Vec<Option<Vec<char>>>,
    key: &Vec<char>,
    Ghost(items): Ghost<Seq<TodoView>>,
)
    requires
        items == todo_views(todos@),
        tkeys@.len() == items.len(),
        forall|k: int| 0 <= k < items.len() ==> ((#[trigger] tkeys@[k]) is Some) == is_candidate(items[k]),
        forall|k: int| 0 <= k < items.len() && (#[trigger] tkeys@[k]) is Some ==> tkeys@[k]->0@ == target_key(items[k]),
    ensures
        todo_views(final(out)@) == todo_views(old(out)@) + followers(items, key@),
{
    let ghost start = todo_views(out@);
    let n = todos.len();
    assert(items.subrange(0, n as int) == items);
    let mut j: usize = 0;
    while j < n
        invariant
            n == items.len(),
            items == todo_views(todos@),
            tkeys@.len() == items.len(),
            forall|k: int| 0 <= k < items.len() ==> ((#[trigger] tkeys@[k]) is Some) == is_candidate(items[k]),
            forall|k: int| 0 <= k < items.len() && (#[trigger] tkeys@[k]) is Some ==> tkeys@[k]->0@ == target_key(items[k]),
            j <= n,
            todo_views(out@) + followers(items.subrange(j as int, n as int), key@) == start + followers(items, key@),
        decreases n - j,
    {
        let ghost s = items.subrange(j as int, n as int);
        let ghost ov = todo_views(out@);
        assert(s[0] == items[j as int]);
        assert(s.drop_first() =~= items.subrange(j + 1, n as int));
        assert(items[j as int] == todos@[j as int]@);
        let ghost rest = followers(items.subrange(j + 1, n as int), key@);
        assert(tkeys@[j as int] is Some == is_candidate(items[j as int]));
        match &tkeys[j] {
            Some(t) => {
                assert(t@ == target_key(items[j as int]));
                if same_chars(t, key) {
                    out.push(squashed_copy(&todos[j]));
                    assert(todo_views(out@) =~= ov.push(squashed(items[j as int])));
                    assert(ov.push(squashed(items[j as int])) + rest =~= ov + (seq![squashed(items[j as int])] + rest));
                }
            },
            None => {},
        }
        j = j + 1;
    }
    assert(items.subrange(n as int, n as int).len() == 0);
    assert(todo_views(out@) + Seq::<TodoView>::empty() =~= todo_views(out@));
}

/// Reorders a rebase todo list so that each `fixup! X` / `squash! X` commit
/// follows the entry whose subject is `X`, with the matching action; one
/// whose target is missing stays where it was.
pub fn apply_autosquash(todos: Vec<RebaseTodoItem>) -> (r: Vec<RebaseTodoItem>)
    ensures
        todo_views(r@) == spec_apply_autosquash(todo_views(todos@)),
{
    let ghost items = todo_views(todos@);
    let n = todos.len();
    let mut tkeys: Vec<Option<Vec<char>>> = Vec::new();
    let mut subjects: Vec<Vec<char>> = Vec::new();
    let mut i: usize = 0;
    while i < n
        invariant
            n == items.len(),
            items == todo_views(todos@),
            i <= n,
            tkeys@.len() == i,
            subjects@.len() == i,
            forall|k: int| 0 <= k < i ==> ((#[trigger] tkeys@[k]) is Some) == is_candidate(items[k]),
            forall|k: int| 0 <= k < i && (#[trigger] tkeys@[k]) is Some ==> tkeys@[k]->0@ == target_key(items[k]),
            forall|k: int| 0 <= k < i ==> (#[trigger] subjects@[k])@ == trim(items[k].2),
        decreases n - i,
    {
        assert(items[i as int] == todos@[i as int]@);
        match target_of(todos[i].message.as_str()) {
            Some(t) => {
                tkeys.push(Some(trim_vec(&t)));
            },
            None => {
                tkeys.push(None);
            },
        }
        subjects.push(trimmed_chars(todos[i].message.as_str()));
        i = i + 1;
    }
    assert(keys_describe(items, tkeys@, subjects@));
    let ghost goal = spec_apply_autosquash(items);
    let mut out: Vec<RebaseTodoItem> = Vec::new();
    let mut seen: Vec<Vec<char>> = Vec::new();
    assert(items.subrange(0, n as int) == items);
    assert(key_views(seen@) =~= Seq::<Seq<char>>::empty());
    assert(todo_views(out@) + goal =~= goal);
    let mut i: usize = 0;
    while i < n
        invariant
            n == items.len(),
            items == todo_views(todos@),
            keys_describe(items, tkeys@, subjects@),
            i <= n,
            goal == spec_apply_autosquash(items),
            todo_views(out@) + arrange(items.subrange(i as int, n as int), items, key_views(seen@)) == goal,
        decreases n - i,
    {
        let ghost s = items.subrange(i as int, n as int);
        let ghost h = items[i as int];
        let ghost rest = items.subrange(i + 1, n as int);
        assert(s[0] == h);
        assert(s.drop_first() =~= rest);
        assert(h == todos@[i as int]@);
        let ghost ov = todo_views(out@);
        let ghost sv = key_views(seen@);
        assert(tkeys@[i as int] is Some == is_candidate(h));
        assert(subjects@[i as int]@ == trim(h.2));
        match &tkeys[i] {
            None => {
                let k = &subjects[i];
                if key_listed(&seen, k) {
                    out.push(copy_item(&todos[i]));
                    assert(todo_views(out@) =~= ov.push(h));
                    assert(ov.push(h) + arrange(rest, items, sv) =~= ov + (seq![h] + arrange(rest, items, sv)));
                } else {
                    out.push(copy_item(&todos[i]));
                    assert(todo_views(out@) =~= ov.push(h));
                    push_followers(&mut out, &todos, &tkeys, k, Ghost(items));
                    let kc = char_range(k, 0, k.len());
                    assert(kc@ =~= k@);
                    seen.push(kc);
                    assert(key_views(seen@) =~= sv.push(k@));
                    let ghost f = followers(items, k@);
                    let ghost a = arrange(rest, items, sv.push(k@));
                    assert(ov.push(h) + f + a =~= ov + (seq![h] + f + a));
                }
            },
            Some(t) => {
                assert(t@ == target_key(h));
                if !has_base_key(&tkeys, &subjects, t, Ghost(items)) {
                    out.push(copy_item(&todos[i]));
                    assert(todo_views(out@) =~= ov.push(h));
                    assert(ov.push(h) + arrange(rest, items, sv) =~= ov + (seq![h] + arrange(rest, items, sv)));
                }
            },
        }
        i = i + 1;
    }
    assert(items.subrange(n as int, n as int).len() == 0);
    assert(todo_views(out@) + Seq::<TodoView>::empty() =~= todo_views(out@));
    out
}

/// A commit subject shortened to at most `max` characters for display: a
/// longer one keeps its first `max - 1` characters followed by `…`.
pub open spec fn spec_truncate_subject(s: Seq<char>, max: nat) -> Seq<char> {
    if s.len() <= max {
        s
    } else {
        s.subrange(0, if max == 0 {
            0
        } else {
            max - 1
        }).push('…')
    }
}

/// Shortens a commit subject for display.
pub fn truncate_subject(s: &str, max: usize) -> (out: String)
    ensures
        out@ == spec_truncate_subject(s@, max as nat),
{
    let v = chars_of(s);
    if v.len() <= max {
        return String::from_str(s);
    }
    let keep = if max == 0 {
        0
    } else {
        max - 1
    };
    let head = char_range(&v, 0, keep);
    let mut out = crate::text::string_from_chars(head.as_slice());
    crate::text::push_char(&mut out, '…');
    out
}

} // verus!
