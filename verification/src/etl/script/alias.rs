//! Aliases for tables that a statement names only by path.
use crate::etl::script::scope::lowers;
use crate::text;
use vstd::prelude::*;

verus! {

pub open spec fn is_alias_char(c: char) -> bool {
    text::is_ascii_letter(c) || text::is_digit(c) || c == '_'
}

/// The ASCII letters, digits and underscores of a text.
pub open spec fn alias_chars(s: Seq<char>) -> Seq<char>
    decreases s.len(),
{
    if s.len() == 0 {
        seq![]
    } else if is_alias_char(s.last()) {
        alias_chars(s.drop_last()).push(s.last())
    } else {
        alias_chars(s.drop_last())
    }
}

/// The alias that a table path suggests: its last segment, or the fallback.
pub open spec fn alias_base(table: Seq<Seq<char>>, fallback: Seq<char>) -> Seq<char> {
    if table.len() > 0 && alias_chars(table.last()).len() > 0 {
        text::lower(alias_chars(table.last()))
    } else {
        fallback
    }
}

/// No alias in `taken` is the numbered one.
pub open spec fn is_free(base: Seq<char>, n: nat, taken: Seq<Seq<char>>) -> bool {
    !lowers(taken).contains(text::lower(base + text::nat_text(n)))
}

/// `n` is the least number from 2 on that makes the alias free.
pub open spec fn is_first_free(base: Seq<char>, n: nat, taken: Seq<Seq<char>>) -> bool {
    &&& n >= 2
    &&& is_free(base, n, taken)
    &&& forall|m: nat| 2 <= m < n ==> !#[trigger] is_free(base, m, taken)
}

/// The alias for a table path: the suggested one, numbered where it is taken.
pub open spec fn alias_for(
    table: Seq<Seq<char>>,
    fallback: Seq<char>,
    taken: Seq<Seq<char>>,
) -> Seq<char> {
    let base = alias_base(table, fallback);
    if !lowers(taken).contains(base) {
        base
    } else {
        base + text::nat_text(choose|n: nat| is_first_free(base, n, taken))
    }
}

/// A decimal text stands for the number it was written from.
pub proof fn lemma_nat_text(n: nat)
    ensures
        text::digits_value(text::nat_text(n)) == n,
        text::all_digits(text::nat_text(n)),
        text::nat_text(n).len() > 0,
    decreases n,
{
    if n < 10 {
        assert(text::nat_text(n).drop_last() =~= seq![]);
        assert(text::digits_value(seq![]) == 0);
    } else {
        lemma_nat_text(n / 10);
        assert(text::nat_text(n).drop_last() =~= text::nat_text(n / 10));
    }
}

proof fn lemma_alias_chars_ascii(s: Seq<char>)
    ensures
        text::is_ascii_text(alias_chars(s)),
    decreases s.len(),
{
    if s.len() > 0 {
        lemma_alias_chars_ascii(s.drop_last());
    }
}

proof fn lemma_lower_ascii(s: Seq<char>)
    requires
        text::is_ascii_text(s),
    ensures
        text::is_ascii_text(text::ascii_lower(s)),
{
    assert forall|i: int| 0 <= i < text::ascii_lower(s).len() implies text::is_ascii_char(
        #[trigger] text::ascii_lower(s)[i],
    ) by {
        assert(text::is_ascii_char(s[i]));
    }
}

/// Numbering an ASCII alias differently gives aliases that differ in lower case.
proof fn lemma_numbered_differ(base: Seq<char>, m: nat, n: nat)
    requires
        text::is_ascii_text(base),
        m != n,
    ensures
        text::lower(base + text::nat_text(m)) != text::lower(base + text::nat_text(n)),
{
    lemma_nat_text(m);
    lemma_nat_text(n);
    let a = base + text::nat_text(m);
    let b = base + text::nat_text(n);
    assert forall|k: nat| #![trigger text::nat_text(k)] text::all_digits(text::nat_text(k)) implies {
        let t = base + text::nat_text(k);
        text::is_ascii_text(t) && text::ascii_lower(t).skip(base.len() as int) == text::nat_text(k)
    } by {
        let t = base + text::nat_text(k);
        assert forall|i: int| 0 <= i < t.len() implies text::is_ascii_char(#[trigger] t[i]) by {
            if i < base.len() {
                assert(text::is_ascii_char(base[i]));
            } else {
                assert(text::is_digit(text::nat_text(k)[i - base.len()]));
            }
        }
        assert(text::ascii_lower(t).skip(base.len() as int) =~= text::nat_text(k)) by {
            assert forall|i: int| 0 <= i < text::nat_text(k).len() implies text::ascii_lower(t)[base.len()
                + i] == text::nat_text(k)[i] by {
                assert(text::is_digit(text::nat_text(k)[i]));
            }
        }
    }
    if text::lower(a) == text::lower(b) {
        assert(text::ascii_lower(a).skip(base.len() as int) == text::nat_text(m));
        assert(text::ascii_lower(b).skip(base.len() as int) == text::nat_text(n));
    }
}

/// Among one more number than there are taken aliases, some number is free.
proof fn lemma_some_free(base: Seq<char>, taken: Seq<Seq<char>>, bound: nat)
    requires
        text::is_ascii_text(base),
        forall|m: nat| 2 <= m < bound ==> !#[trigger] is_free(base, m, taken),
        bound >= 2,
    ensures
        bound - 2 <= taken.len(),
{
    let names = Seq::new(
        (bound - 2) as nat,
        |i: int| text::lower(base + text::nat_text((i + 2) as nat)),
    );
    let low = lowers(taken);
    assert(names.no_duplicates()) by {
        assert forall|i: int, j: int|
            0 <= i < names.len() && 0 <= j < names.len() && i != j implies names[i] != names[j] by {
            lemma_numbered_differ(base, (i + 2) as nat, (j + 2) as nat);
        }
    }
    assert(names.to_set().subset_of(low.to_set())) by {
        assert forall|x: Seq<char>| names.to_set().contains(x) implies low.to_set().contains(x) by {
            let i = choose|i: int| 0 <= i < names.len() && names[i] == x;
            assert(!is_free(base, (i + 2) as nat, taken));
        }
    }
    names.unique_seq_to_set();
    low.lemma_cardinality_of_set();
    vstd::set_lib::lemma_len_subset(names.to_set(), low.to_set());
}

fn keep_alias_chars(s: &str) -> (r: String)
    ensures
        r@ == alias_chars(s@),
{
    let chars: Vec<char> = text::chars_of(s);
    let mut t: String = String::new();
    let mut i: usize = 0;
    while i < chars.len()
        invariant
            i <= chars@.len(),
            chars@ == s@,
            t@ == alias_chars(s@.take(i as int)),
        decreases chars@.len() - i,
    {
        let c: char = chars[i];
        assert(s@.take(i + 1).drop_last() =~= s@.take(i as int));
        if ('a' <= c && c <= 'z') || ('A' <= c && c <= 'Z') || ('0' <= c && c <= '9') || c == '_' {
            t.push(c);
        }
        i += 1;
    }
    assert(s@.take(i as int) =~= s@);
    t
}

/// The alias for a table path, distinct from the taken ones.
pub(crate) fn derive_alias(table: &Vec<String>, fallback: &str, taken: &Vec<String>) -> (r: String)
    requires
        text::is_ascii_text(fallback@),
    ensures
        r@ == alias_for(text::views(table@), fallback@, text::views(taken@)),
{
    let mut base: String = fallback.to_string();
    if table.len() > 0 {
        let kept: String = keep_alias_chars(table[table.len() - 1].as_str());
        assert(text::views(table@).last() == table@.last()@);
        proof {
            lemma_alias_chars_ascii(table@.last()@);
            lemma_lower_ascii(kept@);
        }
        if !kept.as_str().is_empty() {
            base = text::to_lower(kept.as_str());
        }
    }
    let ghost all = text::views(taken@);
    let mut low: Vec<String> = Vec::new();
    let mut i: usize = 0;
    while i < taken.len()
        invariant
            i <= taken@.len(),
            low@.len() == i,
            forall|j: int| 0 <= j < i ==> #[trigger] low@[j]@ == text::lower(taken@[j]@),
        decreases taken@.len() - i,
    {
        low.push(text::to_lower(taken[i].as_str()));
        i += 1;
    }
    assert(text::views(low@) =~= lowers(all));
    if !text::contains(&low, base.as_str()) {
        return base;
    }
    let mut n: u128 = 2;
    loop
        invariant
            2 <= n,
            all == text::views(taken@),
            text::views(low@) == lowers(all),
            text::is_ascii_text(base@),
            taken@.len() <= usize::MAX,
            forall|m: nat| 2 <= m < n ==> !#[trigger] is_free(base@, m, all),
            lowers(all).contains(base@),
            base@ == alias_base(text::views(table@), fallback@),
        decreases taken@.len() + 3 - n,
    {
        proof {
            lemma_some_free(base@, all, n as nat);
        }
        let number: String = text::u128_text(n);
        let cand: String = text::cat(base.as_str(), number.as_str());
        if !text::contains(&low, text::to_lower(cand.as_str()).as_str()) {
            proof {
                assert(is_first_free(base@, n as nat, all));
                let k = choose|k: nat| is_first_free(base@, k, all);
                assert(is_first_free(base@, k, all));
                assert(k == n) by {
                    if k < n {
                        assert(!is_free(base@, k, all));
                    }
                    if n < k {
                        assert(!is_free(base@, n as nat, all));
                    }
                }
            }
            return cand;
        }
        assert(!is_free(base@, n as nat, all));
        proof {
            assert forall|m: nat| 2 <= m < n + 1 implies !#[trigger] is_free(base@, m, all) by {
                if m == n {
                } else {
                    assert(m < n);
                }
            }
            lemma_some_free(base@, all, (n + 1) as nat);
        }
        n += 1;
    }
}

/// A derived alias is none of the taken ones, in any case, and it is the name of the table,
/// or what stands in for it, with a number behind it where that is taken.
pub proof fn law_derived_aliases_are_free(
    table: Seq<Seq<char>>,
    fallback: Seq<char>,
    taken: Seq<Seq<char>>,
)
    requires
        text::is_ascii_text(fallback),
        text::lower(fallback) == fallback,
    ensures
        !lowers(taken).contains(text::lower(alias_for(table, fallback, taken))),
        !lowers(taken).contains(alias_base(table, fallback)) ==> alias_for(table, fallback, taken)
            == alias_base(table, fallback),
        alias_for(table, fallback, taken).take(alias_base(table, fallback).len() as int)
            == alias_base(table, fallback),
        alias_base(table, fallback).len() == 0 ==> fallback.len() == 0,
{
    let base = alias_base(table, fallback);
    if table.len() > 0 {
        let kept = alias_chars(table.last());
        lemma_alias_chars_ascii(table.last());
        lemma_lower_ascii(kept);
        assert(text::ascii_lower(text::ascii_lower(kept)) =~= text::ascii_lower(kept)) by {
            assert forall|i: int| 0 <= i < kept.len() implies text::lower_char(
                text::lower_char(kept[i]),
            ) == text::lower_char(kept[i]) by {
                text::law_letters_change_case(kept[i]);
            }
        }
    }
    assert(text::is_ascii_text(base));
    assert(text::lower(base) == base);
    let a = alias_for(table, fallback, taken);
    if lowers(taken).contains(base) {
        let n = lemma_first_free(base, taken, 2);
        let k = choose|k: nat| is_first_free(base, k, taken);
        assert(is_first_free(base, k, taken));
        assert(a == base + text::nat_text(k));
        assert(a.take(base.len() as int) =~= base);
    } else {
        assert(a.take(base.len() as int) =~= base);
    }
}

proof fn lemma_first_free(base: Seq<char>, taken: Seq<Seq<char>>, from: nat) -> (n: nat)
    requires
        text::is_ascii_text(base),
        from >= 2,
        forall|m: nat| 2 <= m < from ==> !#[trigger] is_free(base, m, taken),
    ensures
        is_first_free(base, n, taken),
    decreases taken.len() + 3 - from,
{
    lemma_some_free(base, taken, from);
    if is_free(base, from, taken) {
        from
    } else {
        assert forall|m: nat| 2 <= m < from + 1 implies !#[trigger] is_free(base, m, taken) by {
            if m < from {
                assert(!is_free(base, m, taken));
            }
        }
        lemma_first_free(base, taken, from + 1)
    }
}

} // verus!
