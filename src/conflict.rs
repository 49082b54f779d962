//! Collisions between rename targets, and the auto-numbering that avoids them.
//! Targets are compared by their ASCII lower-cased full path.

use vstd::prelude::*;
use vstd::set_lib::{lemma_int_range, lemma_len_subset, lemma_map_size, set_int_range};
use crate::path::{target_of, target_path};
use crate::text::{chars_of, decimal, digit_char, fold, fold_chars_of, lower, lower_char, push_decimal, vec_eq};

verus! {

/// The lower-cased target path of renaming `path` to `name`: the key under
/// which collisions are found.
pub open spec fn key(path: Seq<char>, name: Seq<char>, fold_case: bool) -> Seq<char> {
    fold(fold_case, target_of(path, name))
}

/// The character sequences of a list of character vectors.
pub open spec fn vviews(v: Seq<Vec<char>>) -> Seq<Seq<char>> {
    v.map_values(|x: Vec<char>| x@)
}

/// The index of the last `.` of `s`, or -1.
pub open spec fn last_dot(s: Seq<char>) -> int
    decreases s.len(),
{
    if s.len() == 0 {
        -1
    } else if s.last() == '.' {
        s.len() - 1
    } else {
        last_dot(s.drop_last())
    }
}

/// `s` up to its last dot.
pub open spec fn stem(s: Seq<char>) -> Seq<char> {
    if last_dot(s) < 0 {
        s
    } else {
        s.take(last_dot(s))
    }
}

/// `s` from its last dot on, the dot included; empty without a dot.
pub open spec fn extension(s: Seq<char>) -> Seq<char> {
    if last_dot(s) < 0 {
        Seq::empty()
    } else {
        s.skip(last_dot(s))
    }
}

/// `name` with the counter `n`: `report (2).txt` for `report.txt`.
pub open spec fn numbered(name: Seq<char>, n: nat) -> Seq<char> {
    stem(name) + seq![' ', '('] + decimal(n) + seq![')'] + extension(name)
}

/// The counter `n` leaves `name` free next to `path`.
pub open spec fn is_free(
    used: Seq<Seq<char>>,
    path: Seq<char>,
    name: Seq<char>,
    n: nat,
    fold_case: bool,
) -> bool {
    !used.contains(key(path, numbered(name, n), fold_case))
}

/// The least counter from 2 on that leaves `name` free next to `path`.
pub open spec fn first_free(
    used: Seq<Seq<char>>,
    path: Seq<char>,
    name: Seq<char>,
    fold_case: bool,
) -> nat {
    choose|n: nat|
        n >= 2 && is_free(used, path, name, n, fold_case) && forall|m: nat|
            2 <= m < n ==> !#[trigger] is_free(used, path, name, m, fold_case)
}

/// The name that a record proposing `name` for `path` receives, given the
/// keys already taken: `name` itself if its key is free, else `name` with the
/// least free counter.
pub open spec fn pick_name(
    used: Seq<Seq<char>>,
    path: Seq<char>,
    name: Seq<char>,
    fold_case: bool,
) -> Seq<char> {
    if used.contains(key(path, name, fold_case)) {
        numbered(name, first_free(used, path, name, fold_case))
    } else {
        name
    }
}

/// Auto-numbering of the records `items` (path, proposed name), in order,
/// starting from the taken keys `used`: the names given, the keys taken
/// afterwards, and how many records received a counter.
pub open spec fn renumbered(
    items: Seq<(Seq<char>, Seq<char>)>,
    used: Seq<Seq<char>>,
    fold_case: bool,
) -> (
    Seq<Seq<char>>,
    Seq<Seq<char>>,
    nat,
)
    decreases items.len(),
{
    if items.len() == 0 {
        (Seq::empty(), used, 0)
    } else {
        let prev = renumbered(items.drop_last(), used, fold_case);
        let (path, name) = items.last();
        let chosen = pick_name(prev.1, path, name, fold_case);
        (
            prev.0.push(chosen),
            prev.1.push(key(path, chosen, fold_case)),
            prev.2 + if prev.1.contains(key(path, name, fold_case)) {
                1nat
            } else {
                0nat
            },
        )
    }
}

/// How many keys equal an earlier one.
pub open spec fn count_repeats(keys: Seq<Seq<char>>) -> nat
    decreases keys.len(),
{
    if keys.len() == 0 {
        0
    } else {
        count_repeats(keys.drop_last()) + if keys.drop_last().contains(keys.last()) {
            1nat
        } else {
            0nat
        }
    }
}

/// How many times `x` occurs in `s`.
pub open spec fn occurrences(s: Seq<Seq<char>>, x: Seq<char>) -> nat
    decreases s.len(),
{
    if s.len() == 0 {
        0
    } else {
        occurrences(s.drop_last(), x) + if s.last() == x {
            1nat
        } else {
            0nat
        }
    }
}

/// How many distinct keys occur more than once.
pub open spec fn count_groups(keys: Seq<Seq<char>>) -> nat
    decreases keys.len(),
{
    if keys.len() == 0 {
        0
    } else {
        count_groups(keys.drop_last()) + if occurrences(keys.drop_last(), keys.last()) == 1 {
            1nat
        } else {
            0nat
        }
    }
}

pub open spec fn is_digit(c: char) -> bool {
    '0' <= c && c <= '9'
}

pub proof fn lemma_decimal_shape(n: nat)
    ensures
        decimal(n).len() >= 1,
        n >= 10 ==> decimal(n).len() >= 2,
        forall|i: int| 0 <= i < decimal(n).len() ==> is_digit(#[trigger] decimal(n)[i]),
    decreases n,
{
    if n >= 10 {
        lemma_decimal_shape(n / 10);
        let d = decimal(n / 10);
        assert forall|i: int| 0 <= i < decimal(n).len() implies is_digit(#[trigger] decimal(n)[i]) by {
            if i < d.len() {
                assert(decimal(n)[i] == d[i]);
            }
        }
    }
}

pub proof fn lemma_decimal_injective(a: nat, b: nat)
    requires
        decimal(a) == decimal(b),
    ensures
        a == b,
    decreases a,
{
    lemma_decimal_shape(a);
    lemma_decimal_shape(b);
    if a >= 10 && b >= 10 {
        assert(decimal(a).drop_last() =~= decimal(a / 10));
        assert(decimal(b).drop_last() =~= decimal(b / 10));
        lemma_decimal_injective(a / 10, b / 10);
        assert(decimal(a).last() == digit_char(a % 10));
        assert(decimal(b).last() == digit_char(b % 10));
        assert(a % 10 == b % 10);
        assert(a == 10 * (a / 10) + a % 10);
        assert(b == 10 * (b / 10) + b % 10);
    } else if a < 10 && b < 10 {
        assert(decimal(a)[0] == digit_char(a));
        assert(decimal(b)[0] == digit_char(b));
    } else if a < 10 {
        assert(decimal(a).len() == 1);
    } else {
        assert(decimal(b).len() == 1);
    }
}

/// Different counters give different keys.
pub proof fn lemma_key_injective(path: Seq<char>, name: Seq<char>, a: nat, b: nat, fold_case: bool)
    requires
        key(path, numbered(name, a), fold_case) == key(path, numbered(name, b), fold_case),
    ensures
        a == b,
{
    lemma_decimal_shape(a);
    lemma_decimal_shape(b);
    let pre = crate::path::dir_part(path) + stem(name) + seq![' ', '('];
    let xa = target_of(path, numbered(name, a));
    let xb = target_of(path, numbered(name, b));
    let da = decimal(a);
    let db = decimal(b);
    assert(xa =~= pre + da + seq![')'] + extension(name));
    assert(xb =~= pre + db + seq![')'] + extension(name));
    let l: int = pre.len() as int;
    assert forall|i: int| 0 <= i < da.len() implies #[trigger] xa[l + i] == da[i] by {}
    assert forall|i: int| 0 <= i < db.len() implies #[trigger] xb[l + i] == db[i] by {}
    assert(xa[l + da.len() as int] == ')');
    assert(xb[l + db.len() as int] == ')');
    assert(lower(xa)[l + da.len() as int] == lower_char(xa[l + da.len() as int]));
    assert(lower(xb)[l + db.len() as int] == lower_char(xb[l + db.len() as int]));
    if da.len() < db.len() {
        assert(lower(xb)[l + da.len() as int] == lower_char(db[da.len() as int]));
        assert(is_digit(db[da.len() as int]));
        assert(false);
    } else if db.len() < da.len() {
        assert(lower(xa)[l + db.len() as int] == lower_char(da[db.len() as int]));
        assert(is_digit(da[db.len() as int]));
        assert(false);
    }
    assert forall|i: int| 0 <= i < da.len() implies da[i] == db[i] by {
        assert(lower(xa)[l + i] == lower_char(da[i]));
        assert(lower(xb)[l + i] == lower_char(db[i]));
        assert(is_digit(da[i]) && is_digit(db[i]));
    }
    assert(da =~= db);
    lemma_decimal_injective(a, b);
}

/// If every counter in `[2, m)` is taken, each took a key of its own, so there
/// are at most as many as taken keys.
pub proof fn lemma_taken_bound(
    used: Seq<Seq<char>>,
    path: Seq<char>,
    name: Seq<char>,
    m: nat,
    fold_case: bool,
)
    requires
        m >= 2,
        forall|j: nat| 2 <= j < m ==> !#[trigger] is_free(used, path, name, j, fold_case),
    ensures
        m <= used.len() + 2,
{
    let f = |j: int| key(path, numbered(name, j as nat), fold_case);
    let r = set_int_range(2, m as int);
    lemma_int_range(2, m as int);
    assert forall|x: int, y: int| r.contains(x) && r.contains(y) && #[trigger] f(x) == #[trigger] f(
        y,
    ) implies x == y by {
        lemma_key_injective(path, name, x as nat, y as nat, fold_case);
    }
    lemma_map_size(r, r.map(f), f);
    assert forall|k: Seq<char>| r.map(f).contains(k) implies used.to_set().contains(k) by {
        let j = choose|j: int| r.contains(j) && f(j) == k;
        assert(!is_free(used, path, name, j as nat, fold_case));
    }
    used.lemma_cardinality_of_set();
    lemma_len_subset(r.map(f), used.to_set());
}

pub proof fn lemma_last_dot_bound(s: Seq<char>)
    ensures
        -1 <= last_dot(s) < s.len(),
    decreases s.len(),
{
    if s.len() > 0 && s.last() != '.' {
        lemma_last_dot_bound(s.drop_last());
    }
}

/// A counter makes a name longer.
pub proof fn lemma_numbered_len(name: Seq<char>, n: nat)
    ensures
        numbered(name, n).len() > name.len(),
{
    lemma_last_dot_bound(name);
    lemma_decimal_shape(n);
}

/// Two records in one directory proposing the same name, where neither that
/// name nor its counter 2 is taken: the first keeps the name, the second
/// receives counter 2, and one record was renumbered.
pub proof fn lemma_same_name_twice(
    p1: Seq<char>,
    p2: Seq<char>,
    name: Seq<char>,
    used: Seq<Seq<char>>,
    fold_case: bool,
)
    requires
        crate::path::dir_part(p1) == crate::path::dir_part(p2),
        !used.contains(key(p1, name, fold_case)),
        !used.contains(key(p1, numbered(name, 2), fold_case)),
    ensures
        ({
            let r = renumbered(seq![(p1, name), (p2, name)], used, fold_case);
            &&& r.0 == seq![name, numbered(name, 2)]
            &&& r.2 == 1
        }),
{
    let items = seq![(p1, name), (p2, name)];
    assert(items.drop_last() =~= seq![(p1, name)]);
    assert(seq![(p1, name)].drop_last() =~= Seq::<(Seq<char>, Seq<char>)>::empty());
    assert(renumbered(Seq::empty(), used, fold_case) == (Seq::<Seq<char>>::empty(), used, 0nat));
    let r1 = renumbered(seq![(p1, name)], used, fold_case);
    assert(pick_name(used, p1, name, fold_case) == name);
    let u1 = used.push(key(p1, name, fold_case));
    assert(r1.1 == u1);
    assert(key(p2, name, fold_case) == key(p1, name, fold_case));
    assert(u1.contains(key(p2, name, fold_case))) by {
        assert(u1[used.len() as int] == key(p1, name, fold_case));
    }
    lemma_numbered_len(name, 2);
    assert(key(p2, numbered(name, 2), fold_case) == key(p1, numbered(name, 2), fold_case));
    assert(key(p1, numbered(name, 2), fold_case).len() != key(p1, name, fold_case).len());
    assert(!u1.contains(key(p2, numbered(name, 2), fold_case))) by {
        if u1.contains(key(p2, numbered(name, 2), fold_case)) {
            let j = choose|j: int| 0 <= j < u1.len() && u1[j] == key(p2, numbered(name, 2), fold_case);
            if j < used.len() {
                assert(used[j] == u1[j]);
            }
        }
    }
    assert(is_free(u1, p2, name, 2, fold_case));
    assert(2nat >= 2 && is_free(u1, p2, name, 2, fold_case) && forall|m: nat|
        2 <= m < 2nat ==> !#[trigger] is_free(u1, p2, name, m, fold_case));
    let f = first_free(u1, p2, name, fold_case);
    assert(f == 2) by {
        if f > 2 {
            assert(!is_free(u1, p2, name, 2, fold_case));
        }
    }
    assert(renumbered(items, used, fold_case).0 =~= seq![name, numbered(name, 2)]);
}

/// Two records with one target make one group of duplicates.
pub proof fn lemma_shared_target_is_one_group(target: Seq<char>)
    ensures
        count_groups(seq![target, target]) == 1,
{
    let s = seq![target, target];
    assert(s.drop_last() =~= seq![target]);
    let one = seq![target];
    assert(one.drop_last() =~= Seq::<Seq<char>>::empty());
    assert(one.last() == target);
    assert(occurrences(Seq::<Seq<char>>::empty(), target) == 0);
    assert(occurrences(one, target) == 1);
    assert(count_groups(Seq::<Seq<char>>::empty()) == 0);
    assert(count_groups(one) == 0);
}

/// The key of renaming `path` to `name`.
pub fn key_of(path: &str, name: &str, fold_case: bool) -> (r: Vec<char>)
    ensures
        r@ == key(path@, name@, fold_case),
{
    let target = target_path(path, name);
    fold_chars_of(fold_case, target.as_str())
}

/// Whether the key `k` is among `used`.
pub fn contains_key(used: &Vec<Vec<char>>, k: &Vec<char>) -> (r: bool)
    ensures
        r == vviews(used@).contains(k@),
{
    let mut i: usize = 0;
    while i < used.len()
        invariant
            i <= used.len(),
            forall|j: int| 0 <= j < i ==> used@[j]@ != k@,
        decreases used.len() - i,
    {
        if vec_eq(&used[i], k) {
            assert(vviews(used@)[i as int] == k@);
            return true;
        }
        i += 1;
    }
    assert(!vviews(used@).contains(k@)) by {
        if vviews(used@).contains(k@) {
            let j = choose|j: int| 0 <= j < vviews(used@).len() && vviews(used@)[j] == k@;
            assert(used@[j]@ == k@);
        }
    }
    false
}

/// The index of the last dot of `v`, if it has one.
fn last_dot_of(v: &Vec<char>) -> (r: Option<usize>)
    ensures
        match r {
            None => last_dot(v@) < 0,
            Some(i) => last_dot(v@) == i && i < v.len(),
        },
{
    let mut i: usize = v.len();
    assert(v@.take(i as int) =~= v@);
    while i > 0
        invariant
            i <= v.len(),
            last_dot(v@) == last_dot(v@.take(i as int)),
        decreases i,
    {
        assert(v@.take(i as int).last() == v@[i - 1]);
        if v[i - 1] == '.' {
            return Some(i - 1);
        }
        assert(v@.take(i as int).drop_last() =~= v@.take(i - 1));
        i -= 1;
    }
    None
}

/// `name` with the counter `n`.
pub fn numbered_name(name: &str, n: u128) -> (r: String)
    ensures
        r@ == numbered(name@, n as nat),
{
    let v = chars_of(name);
    let (stem_end, has_ext) = match last_dot_of(&v) {
        Some(i) => (i, true),
        None => (v.len(), false),
    };
    let mut r = String::from_str(name.substring_char(0, stem_end));
    proof {
        reveal_strlit(" (");
        reveal_strlit(")");
    }
    r.append(" (");
    push_decimal(&mut r, n);
    r.append(")");
    if has_ext {
        r.append(name.substring_char(stem_end, v.len()));
        assert(r@ =~= numbered(name@, n as nat));
    } else {
        assert(v@.take(v.len() as int) =~= v@);
        assert(r@ =~= numbered(name@, n as nat));
    }
    r
}

/// The name that a record proposing `name` for `path` receives, and whether
/// it received a counter.
pub fn pick_free_name(
    used: &Vec<Vec<char>>,
    path: &str,
    name: &String,
    fold_case: bool,
) -> (r: (String, bool))
    ensures
        r.0@ == pick_name(vviews(used@), path@, name@, fold_case),
        r.1 == vviews(used@).contains(key(path@, name@, fold_case)),
{
    let ghost taken = vviews(used@);
    let k = key_of(path, name.as_str(), fold_case);
    if !contains_key(used, &k) {
        return (name.clone(), false);
    }
    let mut n: u128 = 2;
    loop
        invariant
            2 <= n <= used.len() + 2,
            taken == vviews(used@),
            forall|j: nat| 2 <= j < n ==> !#[trigger] is_free(taken, path@, name@, j, fold_case),
            taken.contains(key(path@, name@, fold_case)),
        decreases used.len() + 2 - n,
    {
        let candidate = numbered_name(name.as_str(), n);
        let ck = key_of(path, candidate.as_str(), fold_case);
        if !contains_key(used, &ck) {
            assert(is_free(taken, path@, name@, n as nat, fold_case));
            assert(n as nat >= 2 && is_free(taken, path@, name@, n as nat, fold_case) && forall|m: nat|
                2 <= m < n as nat ==> !#[trigger] is_free(taken, path@, name@, m, fold_case));
            let ghost f = first_free(taken, path@, name@, fold_case);
            assert(f >= 2 && is_free(taken, path@, name@, f, fold_case) && forall|m: nat|
                2 <= m < f ==> !#[trigger] is_free(taken, path@, name@, m, fold_case));
            proof {
                if f < n {
                    assert(!is_free(taken, path@, name@, f, fold_case));
                }
                if n < f {
                    assert(!is_free(taken, path@, name@, n as nat, fold_case));
                }
            }
            return (candidate, true);
        }
        proof {
            lemma_taken_bound(taken, path@, name@, (n + 1) as nat, fold_case);
        }
        n += 1;
    }
}

/// How many of `keys` equal an earlier one.
pub fn count_repeated_keys(keys: &Vec<Vec<char>>) -> (r: usize)
    ensures
        r == count_repeats(vviews(keys@)),
{
    let ghost all = vviews(keys@);
    let mut count: usize = 0;
    let mut seen: Vec<Vec<char>> = Vec::new();
    let mut i: usize = 0;
    assert(all.take(0) =~= Seq::<Seq<char>>::empty());
    while i < keys.len()
        invariant
            all == vviews(keys@),
            i <= keys.len(),
            vviews(seen@) == all.take(i as int),
            count == count_repeats(all.take(i as int)),
            count <= i,
        decreases keys.len() - i,
    {
        assert(all.take(i + 1).drop_last() =~= all.take(i as int));
        assert(all.take(i + 1).last() == keys@[i as int]@);
        if contains_key(&seen, &keys[i]) {
            count += 1;
        }
        seen.push(keys[i].clone());
        assert(vviews(seen@) =~= all.take(i + 1));
        i += 1;
    }
    assert(all.take(i as int) =~= all);
    count
}

/// How many times `k` occurs in `s`, counted up to 2.
fn occurrences_up_to_two(s: &Vec<Vec<char>>, k: &Vec<char>) -> (r: usize)
    ensures
        r == if occurrences(vviews(s@), k@) < 2 {
            occurrences(vviews(s@), k@)
        } else {
            2
        },
{
    let ghost all = vviews(s@);
    let mut count: usize = 0;
    let mut i: usize = 0;
    assert(all.take(0) =~= Seq::<Seq<char>>::empty());
    while i < s.len()
        invariant
            all == vviews(s@),
            i <= s.len(),
            count == if occurrences(all.take(i as int), k@) < 2 {
                occurrences(all.take(i as int), k@)
            } else {
                2
            },
        decreases s.len() - i,
    {
        assert(all.take(i + 1).drop_last() =~= all.take(i as int));
        assert(all.take(i + 1).last() == s@[i as int]@);
        if count < 2 && vec_eq(&s[i], k) {
            count += 1;
        }
        i += 1;
    }
    assert(all.take(i as int) =~= all);
    count
}

/// How many distinct keys occur more than once in `keys`.
pub fn count_key_groups(keys: &Vec<Vec<char>>) -> (r: usize)
    ensures
        r == count_groups(vviews(keys@)),
{
    let ghost all = vviews(keys@);
    let mut count: usize = 0;
    let mut seen: Vec<Vec<char>> = Vec::new();
    let mut i: usize = 0;
    assert(all.take(0) =~= Seq::<Seq<char>>::empty());
    while i < keys.len()
        invariant
            all == vviews(keys@),
            i <= keys.len(),
            vviews(seen@) == all.take(i as int),
            count == count_groups(all.take(i as int)),
            count <= i,
        decreases keys.len() - i,
    {
        assert(all.take(i + 1).drop_last() =~= all.take(i as int));
        assert(all.take(i + 1).last() == keys@[i as int]@);
        if occurrences_up_to_two(&seen, &keys[i]) == 1 {
            count += 1;
        }
        seen.push(keys[i].clone());
        assert(vviews(seen@) =~= all.take(i + 1));
        i += 1;
    }
    assert(all.take(i as int) =~= all);
    count
}

} // verus!
