//! Labels: the default ones, and the test that none occurs twice.

use vstd::prelude::*;
use vstd::hash_map::StringHashMap;
use vstd::string::StringExecFns;

verus! {

/// The character that writes the digit `d`.
pub open spec fn digit_char(d: nat) -> char {
    if d == 0 {
        '0'
    } else if d == 1 {
        '1'
    } else if d == 2 {
        '2'
    } else if d == 3 {
        '3'
    } else if d == 4 {
        '4'
    } else if d == 5 {
        '5'
    } else if d == 6 {
        '6'
    } else if d == 7 {
        '7'
    } else if d == 8 {
        '8'
    } else {
        '9'
    }
}

/// The decimal numeral of `n`, without leading zeros.
pub open spec fn decimal(n: nat) -> Seq<char>
    decreases n,
{
    if n < 10 {
        seq![digit_char(n)]
    } else {
        decimal(n / 10).push(digit_char(n % 10))
    }
}

/// The labels that a frame has before any are given: `0`, `1`, ... in decimal.
pub open spec fn default_labels(n: nat) -> Seq<Seq<char>> {
    Seq::new(n, |i: int| decimal(i as nat))
}

/// A numeral has at least one digit, and more than one from ten on.
pub proof fn lemma_decimal_len(n: nat)
    ensures
        decimal(n).len() >= 1,
        n >= 10 ==> decimal(n).len() >= 2,
    decreases n,
{
    if n >= 10 {
        lemma_decimal_len(n / 10);
    }
}

/// Different numbers have different numerals.
pub proof fn lemma_decimal_injective(a: nat, b: nat)
    requires
        decimal(a) == decimal(b),
    ensures
        a == b,
    decreases a,
{
    lemma_decimal_len(a);
    lemma_decimal_len(b);
    if a < 10 && b < 10 {
        assert(decimal(a)[0] == digit_char(a));
        assert(decimal(b)[0] == digit_char(b));
    } else if a >= 10 && b >= 10 {
        let pa = decimal(a / 10);
        let pb = decimal(b / 10);
        assert(decimal(a) == pa.push(digit_char(a % 10)));
        assert(decimal(b) == pb.push(digit_char(b % 10)));
        assert(pa.push(digit_char(a % 10)).last() == digit_char(a % 10));
        assert(pb.push(digit_char(b % 10)).last() == digit_char(b % 10));
        assert(pa.push(digit_char(a % 10)).drop_last() =~= pa);
        assert(pb.push(digit_char(b % 10)).drop_last() =~= pb);
        assert(pa == pb);
        lemma_decimal_injective(a / 10, b / 10);
        assert(a % 10 == b % 10);
    } else if a < 10 {
        assert(decimal(a).len() == 1);
    } else {
        assert(decimal(b).len() == 1);
    }
}

/// The default labels are pairwise different.
pub proof fn lemma_default_labels_distinct(n: nat)
    ensures
        default_labels(n).no_duplicates(),
        default_labels(n).len() == n,
{
    assert forall|i: int, j: int|
        0 <= i < n && 0 <= j < n && i != j implies default_labels(n)[i] != default_labels(n)[j] by {
        if decimal(i as nat) == decimal(j as nat) {
            lemma_decimal_injective(i as nat, j as nat);
        }
    }
}

/// The one-character text of a digit.
fn digit_text(d: usize) -> (t: &'static str)
    requires
        d < 10,
    ensures
        t@ == seq![digit_char(d as nat)],
{
    proof {
        reveal_strlit("0");
        reveal_strlit("1");
        reveal_strlit("2");
        reveal_strlit("3");
        reveal_strlit("4");
        reveal_strlit("5");
        reveal_strlit("6");
        reveal_strlit("7");
        reveal_strlit("8");
        reveal_strlit("9");
    }
    let t = if d == 0 {
        "0"
    } else if d == 1 {
        "1"
    } else if d == 2 {
        "2"
    } else if d == 3 {
        "3"
    } else if d == 4 {
        "4"
    } else if d == 5 {
        "5"
    } else if d == 6 {
        "6"
    } else if d == 7 {
        "7"
    } else if d == 8 {
        "8"
    } else {
        "9"
    };
    assert(t@ =~= seq![digit_char(d as nat)]);
    t
}

/// The decimal numeral of `n`.
pub fn decimal_label(n: usize) -> (s: String)
    ensures
        s@ == decimal(n as nat),
    decreases n,
{
    if n < 10 {
        String::from_str(digit_text(n))
    } else {
        let mut s = decimal_label(n / 10);
        s.append(digit_text(n % 10));
        assert(s@ =~= decimal((n / 10) as nat).push(digit_char((n % 10) as nat)));
        s
    }
}

/// The first `n` default labels.
pub fn make_default_labels(n: usize) -> (labels: Vec<String>)
    ensures
        labels.deep_view() == default_labels(n as nat),
{
    let mut labels: Vec<String> = Vec::new();
    let mut i: usize = 0;
    while i < n
        invariant
            i <= n,
            labels.len() == i,
            forall|k: int| 0 <= k < i ==> (#[trigger] labels[k])@ == decimal(k as nat),
        decreases n - i,
    {
        labels.push(decimal_label(i));
        i = i + 1;
    }
    assert(labels.deep_view() =~= default_labels(n as nat));
    labels
}

/// Tells whether `label` is among `labels`.
pub fn contains_label(labels: &Vec<String>, label: &String) -> (found: bool)
    ensures
        found == labels.deep_view().contains(label@),
{
    let mut i: usize = 0;
    while i < labels.len()
        invariant
            i <= labels.len(),
            forall|k: int| 0 <= k < i ==> (#[trigger] labels[k])@ != label@,
        decreases labels.len() - i,
    {
        if labels[i] == *label {
            assert(labels.deep_view()[i as int] == label@);
            return true;
        }
        i = i + 1;
    }
    assert forall|k: int| 0 <= k < labels.deep_view().len() implies labels.deep_view()[k]
        != label@ by {
        assert(labels.deep_view()[k] == labels[k]@);
    }
    false
}

/// Tells whether no label occurs twice in `labels`.
pub fn all_distinct(labels: &Vec<String>) -> (distinct: bool)
    ensures
        distinct == labels.deep_view().no_duplicates(),
{
    let mut seen: StringHashMap<bool> = StringHashMap::new();
    let mut i: usize = 0;
    while i < labels.len()
        invariant
            i <= labels.len(),
            forall|a: int, b: int| 0 <= a < b < i ==> labels[a]@ != labels[b]@,
            forall|l: Seq<char>| #[trigger]
                seen@.contains_key(l) <==> exists|k: int| 0 <= k < i && (#[trigger] labels[k])@ == l,
        decreases labels.len() - i,
    {
        if seen.contains_key(labels[i].as_str()) {
            proof {
                let k = choose|k: int| 0 <= k < i && (#[trigger] labels[k])@ == labels[i as int]@;
                assert(labels.deep_view()[k] == labels.deep_view()[i as int]);
            }
            return false;
        }
        let ghost before = seen@;
        seen.insert(labels[i].clone(), true);
        proof {
            assert forall|l: Seq<char>| #[trigger]
                seen@.contains_key(l) <==> exists|k: int|
                    0 <= k < i + 1 && (#[trigger] labels[k])@ == l by {
                if l == labels[i as int]@ {
                } else if before.contains_key(l) {
                    let k = choose|k: int| 0 <= k < i && (#[trigger] labels[k])@ == l;
                    assert(0 <= k < i + 1 && labels[k]@ == l);
                } else if exists|k: int| 0 <= k < i + 1 && (#[trigger] labels[k])@ == l {
                    let k = choose|k: int| 0 <= k < i + 1 && (#[trigger] labels[k])@ == l;
                    assert(k < i);
                }
            }
            assert forall|a: int, b: int| 0 <= a < b < i + 1 implies labels[a]@ != labels[b]@ by {
                if b == i && labels[a]@ == labels[b]@ {
                    assert(before.contains_key(labels[a]@));
                }
            }
        }
        i = i + 1;
    }
    assert forall|a: int, b: int|
        0 <= a < labels.deep_view().len() && 0 <= b < labels.deep_view().len() && a
            != b implies labels.deep_view()[a] != labels.deep_view()[b] by {
        if a < b {
            assert(labels[a]@ != labels[b]@);
        } else {
            assert(labels[b]@ != labels[a]@);
        }
    }
    true
}

/// Owned copies of the given texts.
pub fn owned_labels(texts: &[&str]) -> (labels: Vec<String>)
    ensures
        labels.deep_view() == texts@.map_values(|t: &str| t@),
{
    let mut labels: Vec<String> = Vec::new();
    let mut i: usize = 0;
    while i < texts.len()
        invariant
            i <= texts.len(),
            labels.len() == i,
            forall|k: int| 0 <= k < i ==> (#[trigger] labels[k])@ == texts[k]@,
        decreases texts.len() - i,
    {
        labels.push(String::from_str(texts[i]));
        i = i + 1;
    }
    assert(labels.deep_view() =~= texts@.map_values(|t: &str| t@));
    labels
}

/// A copy of `labels`.
pub fn copy_labels(labels: &Vec<String>) -> (copy: Vec<String>)
    ensures
        copy.deep_view() == labels.deep_view(),
        copy.len() == labels.len(),
        forall|k: int| 0 <= k < labels.len() ==> (#[trigger] copy[k])@ == labels[k]@,
{
    let mut copy: Vec<String> = Vec::new();
    let mut i: usize = 0;
    while i < labels.len()
        invariant
            i <= labels.len(),
            copy.len() == i,
            forall|k: int| 0 <= k < i ==> (#[trigger] copy[k])@ == labels[k]@,
        decreases labels.len() - i,
    {
        copy.push(labels[i].clone());
        i = i + 1;
    }
    assert(copy.deep_view() =~= labels.deep_view());
    copy
}

} // verus!
