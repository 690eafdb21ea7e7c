//! Language totals: summing sizes and spreading a dominant language's share.

use vstd::prelude::*;
use crate::models::{Language, clone_opt_string};

verus! {

/// The summed size of a list of languages.
pub open spec fn total_size(s: Seq<Language>) -> nat
    decreases s.len(),
{
    if s.len() == 0 {
        0
    } else {
        total_size(s.drop_last()) + s.last().size as nat
    }
}

/// The first language holds more than 80% of the total size (and there is
/// another language to give to).
pub open spec fn is_dominant(s: Seq<Language>) -> bool {
    &&& s.len() > 1
    &&& total_size(s) > 0
    &&& 5 * s[0].size > 4 * total_size(s)
}

/// The part of the first language's size that is handed on: 40% of it,
/// rounded down.
pub open spec fn moved_share(s: Seq<Language>) -> int {
    (2 * s[0].size) / 5
}

/// The new size of language `i` once a dominant first language has handed
/// on its share: half of the share goes to the second language, and the rest
/// is spread evenly over the others (the first of them getting one more each
/// where it does not divide), or all to the second language if there are no
/// others.
pub open spec fn redistributed_size(s: Seq<Language>, i: int) -> int {
    let moved = moved_share(s);
    let second = moved / 2;
    let rest = moved - second;
    let n = s.len();
    if i == 0 {
        s[0].size - moved
    } else if i == 1 {
        if n > 2 {
            s[1].size + second
        } else {
            s[1].size + second + rest
        }
    } else {
        s[i].size + rest / (n - 2) + (if i - 2 < rest % (n - 2) {
            1int
        } else {
            0int
        })
    }
}

/// The languages after redistribution; unchanged unless the first is
/// dominant.
pub open spec fn redistributed(s: Seq<Language>) -> Seq<Language> {
    if is_dominant(s) {
        Seq::new(
            s.len(),
            |i: int|
                Language { size: redistributed_size(s, i) as usize, name: s[i].name, color: s[i].color },
        )
    } else {
        s
    }
}

pub proof fn lemma_total_size_append(a: Seq<Language>, b: Seq<Language>)
    ensures
        total_size(a + b) == total_size(a) + total_size(b),
    decreases b.len(),
{
    if b.len() > 0 {
        assert((a + b).drop_last() =~= a + b.drop_last());
        lemma_total_size_append(a, b.drop_last());
    } else {
        assert(a + b =~= a);
    }
}

pub proof fn lemma_size_le_total(s: Seq<Language>, i: int)
    requires
        0 <= i < s.len(),
    ensures
        s[i].size <= total_size(s),
    decreases s.len(),
{
    if i < s.len() - 1 {
        lemma_size_le_total(s.drop_last(), i);
    }
}

proof fn lemma_two_sizes_le_total(s: Seq<Language>, i: int)
    requires
        1 <= i < s.len(),
    ensures
        s[0].size + s[i].size <= total_size(s),
    decreases s.len(),
{
    if i < s.len() - 1 {
        lemma_two_sizes_le_total(s.drop_last(), i);
    } else {
        lemma_size_le_total(s.drop_last(), 0);
    }
}

proof fn lemma_total_split(s: Seq<Language>)
    requires
        s.len() >= 2,
    ensures
        total_size(s) == s[0].size + s[1].size + total_size(s.skip(2)),
{
    let head = s.take(2);
    reveal_with_fuel(total_size, 3);
    assert(head + s.skip(2) =~= s);
    lemma_total_size_append(head, s.skip(2));
    assert(head.drop_last().drop_last() =~= Seq::<Language>::empty());
}

proof fn lemma_bonus_total(t: Seq<Language>, u: Seq<Language>, per: int, extra: int)
    requires
        t.len() == u.len(),
        per >= 0,
        extra >= 0,
        forall|k: int|
            0 <= k < t.len() ==> #[trigger] u[k].size == t[k].size + per + (if k < extra {
                1int
            } else {
                0int
            }),
    ensures
        total_size(u) == total_size(t) + per * t.len() + (if extra < t.len() {
            extra
        } else {
            t.len() as int
        }),
    decreases t.len(),
{
    if t.len() > 0 {
        let n = t.len() as int;
        assert forall|k: int| 0 <= k < n - 1 implies #[trigger] u.drop_last()[k].size
            == t.drop_last()[k].size + per + (if k < extra {
            1int
        } else {
            0int
        }) by {
            assert(u.drop_last()[k] == u[k]);
            assert(t.drop_last()[k] == t[k]);
        }
        lemma_bonus_total(t.drop_last(), u.drop_last(), per, extra);
        assert(u.last() == u[n - 1]);
        assert(per * (n - 1) + per == per * n) by (nonlinear_arith);
    }
}

/// Redistribution keeps the number of languages, their names and colors, and
/// their total size.
pub proof fn lemma_redistribution_preserves_total(s: Seq<Language>)
    requires
        total_size(s) <= usize::MAX,
    ensures
        redistributed(s).len() == s.len(),
        forall|i: int|
            0 <= i < s.len() ==> (#[trigger] redistributed(s)[i]).name == s[i].name
                && redistributed(s)[i].color == s[i].color,
        total_size(redistributed(s)) == total_size(s),
{
    if is_dominant(s) {
        let r = redistributed(s);
        let n = s.len() as int;
        let moved = moved_share(s);
        let second = moved / 2;
        let rest = moved - second;
        assert(0 <= moved <= s[0].size);
        lemma_two_sizes_le_total(s, 1);
        assert forall|i: int| 0 <= i < n implies #[trigger] r[i].size == redistributed_size(s, i)
            by {
            if i >= 2 {
                lemma_two_sizes_le_total(s, i);
                let per = rest / (n - 2);
                let extra = rest % (n - 2);
                assert(per * (n - 2) + extra == rest) by (nonlinear_arith)
                    requires
                        n - 2 >= 1,
                        per == rest / (n - 2),
                        extra == rest % (n - 2),
                ;
                assert(per <= per * (n - 2)) by (nonlinear_arith)
                    requires
                        n - 2 >= 1,
                        per >= 0,
                ;
            }
        }
        lemma_total_split(s);
        lemma_total_split(r);
        if n > 2 {
            let per = rest / (n - 2);
            let extra = rest % (n - 2);
            let t = s.skip(2);
            let u = r.skip(2);
            assert forall|k: int| 0 <= k < t.len() implies #[trigger] u[k].size == t[k].size + per
                + (if k < extra {
                1int
            } else {
                0int
            }) by {
                assert(u[k] == r[k + 2]);
                assert(t[k] == s[k + 2]);
            }
            lemma_bonus_total(t, u, per, extra);
            assert(per * (n - 2) + extra == rest) by (nonlinear_arith)
                requires
                    n - 2 >= 1,
                    per == rest / (n - 2),
                    extra == rest % (n - 2),
            ;
            assert(extra < n - 2) by (nonlinear_arith)
                requires
                    n - 2 >= 1,
                    extra == rest % (n - 2),
            ;
        } else {
            assert(s.skip(2) =~= Seq::<Language>::empty());
            assert(r.skip(2) =~= Seq::<Language>::empty());
        }
    }
}

/// Only a first language holding more than 80% of the summed size gives
/// anything away: otherwise the list comes back unchanged. When it does, it
/// keeps all but 40% of its size (rounded down in its favour), every other
/// language keeps at least its size, the second gains at least half of what
/// was given, and every language keeps its place, name and color.
pub proof fn lemma_redistribution_only_when_dominant(s: Seq<Language>)
    ensures
        redistributed(s).len() == s.len(),
        forall|i: int|
            0 <= i < s.len() ==> (#[trigger] redistributed(s)[i]).name == s[i].name
                && redistributed(s)[i].color == s[i].color,
        s.len() < 2 || 5 * s[0].size <= 4 * total_size(s) ==> redistributed(s) == s,
        s.len() >= 2 && 5 * s[0].size > 4 * total_size(s) ==> redistributed(s)[0].size == s[0].size
            - (2 * s[0].size) / 5,
        s.len() >= 2 && 5 * s[0].size > 4 * total_size(s) && total_size(s) <= usize::MAX ==> {
            &&& redistributed(s)[1].size >= s[1].size + (2 * s[0].size) / 5 / 2
            &&& forall|i: int| 1 <= i < s.len() ==> (#[trigger] redistributed(s)[i]).size >= s[i].size
        },
{
    if s.len() >= 2 && 5 * s[0].size > 4 * total_size(s) {
        lemma_size_le_total(s, 0);
        assert(is_dominant(s));
        let r = redistributed(s);
        let n = s.len() as int;
        let moved = moved_share(s);
        assert(0 <= moved <= s[0].size);
        if total_size(s) <= usize::MAX {
            lemma_two_sizes_le_total(s, 1);
            assert forall|i: int| 1 <= i < n implies (#[trigger] r[i]).size >= s[i].size by {
                lemma_two_sizes_le_total(s, i);
                if i >= 2 {
                    let rest = moved - moved / 2;
                    assert(rest / (n - 2) >= 0) by (nonlinear_arith)
                        requires
                            n - 2 >= 1,
                            rest >= 0,
                    ;
                    assert(rest / (n - 2) <= rest) by (nonlinear_arith)
                        requires
                            n - 2 >= 1,
                            rest >= 0,
                    ;
                }
            }
        }
    }
}

fn set_size(languages: &mut Vec<Language>, i: usize, size: usize)
    requires
        i < old(languages)@.len(),
    ensures
        final(languages)@ == old(languages)@.update(
            i as int,
            Language { size: size, name: old(languages)@[i as int].name, color: old(languages)@[i as int].color },
        ),
{
    let l = Language {
        size: size,
        name: languages[i].name.clone(),
        color: clone_opt_string(&languages[i].color),
    };
    languages.set(i, l);
}

/// When the first language holds more than 80% of the total size, hands 40%
/// of it on to the others (see `redistributed`); otherwise changes nothing.
pub fn redistribute_languages(languages: &mut Vec<Language>)
    requires
        total_size(old(languages)@) <= usize::MAX,
    ensures
        final(languages)@ == redistributed(old(languages)@),
        old(languages)@.len() < 2 || 5 * old(languages)@[0].size <= 4 * total_size(old(languages)@)
            ==> final(languages)@ == old(languages)@,
{
    let ghost s = languages@;
    proof {
        lemma_redistribution_preserves_total(s);
        lemma_redistribution_only_when_dominant(s);
    }
    let n = languages.len();
    if n <= 1 {
        return;
    }
    let mut total: usize = 0;
    let mut k: usize = 0;
    while k < n
        invariant
            n == languages@.len(),
            languages@ == s,
            k <= n,
            total == total_size(s.take(k as int)),
            total_size(s) <= usize::MAX,
        decreases n - k,
    {
        proof {
            assert(s.take(k + 1).drop_last() =~= s.take(k as int));
            assert(s.take(k + 1) + s.skip(k + 1) =~= s);
            lemma_total_size_append(s.take(k + 1), s.skip(k + 1));
        }
        total = total + languages[k].size;
        k = k + 1;
    }
    assert(s.take(n as int) =~= s);
    if total == 0 {
        return;
    }
    let first = languages[0].size;
    if (first as u128) * 5 <= (total as u128) * 4 {
        return;
    }
    proof {
        lemma_two_sizes_le_total(s, 1);
    }
    let moved = first / 5 * 2 + (first % 5) * 2 / 5;
    assert(moved == (2 * first) / 5) by (nonlinear_arith)
        requires
            moved == first / 5 * 2 + (first % 5) * 2 / 5,
    ;
    set_size(languages, 0, first - moved);
    let second = moved / 2;
    let rest = moved - second;
    let s1 = languages[1].size;
    if n > 2 {
        set_size(languages, 1, s1 + second);
        let per = rest / (n - 2);
        let extra = rest % (n - 2);
        assert(per * (n - 2) + extra == rest) by (nonlinear_arith)
            requires
                n as int - 2 >= 1,
                per as int == rest as int / (n as int - 2),
                extra as int == rest as int % (n as int - 2),
        ;
        let mut i: usize = 2;
        while i < n
            invariant
                n == s.len(),
                n > 2,
                is_dominant(s),
                first == s[0].size,
                moved == moved_share(s),
                rest == moved - moved / 2,
                per as int == rest as int / (n as int - 2),
                extra as int == rest as int % (n as int - 2),
                per * (n as int - 2) + extra == rest,
                total_size(s) <= usize::MAX,
                2 <= i <= n,
                languages@.len() == n,
                forall|j: int|
                    0 <= j < i ==> #[trigger] languages@[j] == redistributed(s)[j],
                forall|j: int| i <= j < n ==> #[trigger] languages@[j] == s[j],
            decreases n - i,
        {
            proof {
                lemma_two_sizes_le_total(s, i as int);
                assert(per <= per * (n as int - 2)) by (nonlinear_arith)
                    requires
                        n as int - 2 >= 1,
                        per >= 0,
                ;
                assert(rest <= first);
            }
            let cur = languages[i].size;
            let mut grown = cur + per;
            if i - 2 < extra {
                grown = grown + 1;
            }
            set_size(languages, i, grown);
            i = i + 1;
        }
        assert(languages@ =~= redistributed(s));
    } else {
        set_size(languages, 1, s1 + second + rest);
        assert(languages@ =~= redistributed(s));
    }
}

} // verus!
