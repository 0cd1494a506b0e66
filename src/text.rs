//! Text building blocks for the generated records: decimal numerals,
//! numbered keys and filler strings.
use vstd::prelude::*;

verus! {

/// The decimal numeral of a digit `d < 10`.
pub open spec fn digit_char(d: nat) -> char {
    if d == 0 {
        '0'
    } else if d == 1 {
        '1'
    } else if d == 2 {
        '2'
    } else if d == 3 {
        '3'
    } else if d == 4 {
        '4'
    } else if d == 5 {
        '5'
    } else if d == 6 {
        '6'
    } else if d == 7 {
        '7'
    } else if d == 8 {
        '8'
    } else {
        '9'
    }
}

/// The decimal numeral of `n`, most significant digit first, without leading zeros.
pub open spec fn decimal(n: nat) -> Seq<char>
    decreases n,
{
    if n < 10 {
        seq![digit_char(n)]
    } else {
        decimal(n / 10).push(digit_char(n % 10))
    }
}

/// A string of `n` copies of the letter `o`.
pub open spec fn filler(n: nat) -> Seq<char> {
    Seq::new(n, |i: int| 'o')
}

/// A one-character string holding the digit `d`.
fn digit_text(d: u32) -> (r: &'static str)
    requires
        d < 10,
    ensures
        r@ == seq![digit_char(d as nat)],
{
    proof {
        reveal_strlit("0");
        reveal_strlit("1");
        reveal_strlit("2");
        reveal_strlit("3");
        reveal_strlit("4");
        reveal_strlit("5");
        reveal_strlit("6");
        reveal_strlit("7");
        reveal_strlit("8");
        reveal_strlit("9");
    }
    let r = match d {
        0 => "0",
        1 => "1",
        2 => "2",
        3 => "3",
        4 => "4",
        5 => "5",
        6 => "6",
        7 => "7",
        8 => "8",
        _ => "9",
    };
    assert(r@ =~= seq![digit_char(d as nat)]);
    r
}

/// Appends the decimal numeral of `n` to `s`.
pub fn push_decimal(s: &mut String, n: u32)
    ensures
        final(s)@ == old(s)@ + decimal(n as nat),
    decreases n,
{
    if n < 10 {
        s.append(digit_text(n));
    } else {
        push_decimal(s, n / 10);
        s.append(digit_text(n % 10));
        assert(decimal(n as nat) == decimal((n / 10) as nat).push(digit_char((n % 10) as nat)));
    }
    assert(s@ =~= old(s)@ + decimal(n as nat));
}

/// The key `prefix` followed by the decimal numeral of `i`.
pub open spec fn numbered_key(prefix: Seq<char>, i: nat) -> Seq<char> {
    prefix + decimal(i)
}

/// The entries `(prefix + i, i * step)` for `i` in `0..count`, in that order.
pub open spec fn numbered_entries(prefix: Seq<char>, count: nat, step: nat) -> Seq<(Seq<char>, u32)> {
    Seq::new(count, |i: int| (numbered_key(prefix, i as nat), (i * step) as u32))
}

/// What a list of named values holds, with each name as its characters.
pub open spec fn entries_view(v: Seq<(String, u32)>) -> Seq<(Seq<char>, u32)> {
    v.map_values(|e: (String, u32)| (e.0@, e.1))
}

/// Builds the entries `(prefix + i, i * step)` for `i` in `0..count`.
pub fn numbered(prefix: &str, count: u32, step: u32) -> (r: Vec<(String, u32)>)
    requires
        count * step <= u32::MAX,
    ensures
        entries_view(r@) == numbered_entries(prefix@, count as nat, step as nat),
{
    let mut r: Vec<(String, u32)> = Vec::new();
    let mut i: u32 = 0;
    while i < count
        invariant
            i <= count,
            r@.len() == i,
            count * step <= u32::MAX,
            entries_view(r@) == numbered_entries(prefix@, i as nat, step as nat),
        decreases count - i,
    {
        let mut key = String::from_str(prefix);
        push_decimal(&mut key, i);
        assert(i * step <= count * step) by (nonlinear_arith)
            requires
                i < count,
        ;
        let value: u32 = i * step;
        let ghost before = r@;
        let ghost key_view = key@;
        r.push((key, value));
        proof {
            let want = numbered_entries(prefix@, (i + 1) as nat, step as nat);
            assert(r@[i as int].0@ == key_view);
            assert(r@[i as int].0@ == numbered_key(prefix@, i as nat));
            assert forall|j: int| 0 <= j < i + 1 implies #[trigger] entries_view(r@)[j] == want[j] by {
                if j < i {
                    assert(entries_view(r@)[j] == entries_view(before)[j]);
                }
            }
            assert(entries_view(r@) =~= want);
        }
        i = i + 1;
    }
    r
}

/// Builds a string of `n` copies of the letter `o`.
pub fn filler_text(n: usize) -> (r: String)
    ensures
        r@ == filler(n as nat),
{
    let mut r = String::new();
    let mut i: usize = 0;
    while i < n
        invariant
            i <= n,
            r@ == filler(i as nat),
        decreases n - i,
    {
        proof {
            reveal_strlit("o");
        }
        r.append("o");
        i = i + 1;
        assert(r@ =~= filler(i as nat));
    }
    r
}

proof fn lemma_decimal_len(n: nat)
    ensures
        decimal(n).len() >= 1,
        n >= 10 ==> decimal(n).len() >= 2,
    decreases n,
{
    if n >= 10 {
        lemma_decimal_len(n / 10);
    }
}

proof fn lemma_digit_injective(x: nat, y: nat)
    requires
        x < 10,
        y < 10,
        digit_char(x) == digit_char(y),
    ensures
        x == y,
{
}

/// Distinct numbers have distinct decimal numerals.
pub proof fn lemma_decimal_injective(a: nat, b: nat)
    requires
        decimal(a) == decimal(b),
    ensures
        a == b,
    decreases a,
{
    lemma_decimal_len(a);
    lemma_decimal_len(b);
    if a < 10 && b < 10 {
        assert(decimal(a)[0] == digit_char(a));
        assert(decimal(b)[0] == digit_char(b));
        lemma_digit_injective(a, b);
    } else if a >= 10 && b >= 10 {
        let da = decimal(a);
        let db = decimal(b);
        assert(da.drop_last() =~= decimal(a / 10));
        assert(db.drop_last() =~= decimal(b / 10));
        assert(da.last() == digit_char(a % 10));
        assert(db.last() == digit_char(b % 10));
        lemma_digit_injective(a % 10, b % 10);
        lemma_decimal_injective(a / 10, b / 10);
    }
}

/// The keys of a numbered table are pairwise distinct.
pub proof fn lemma_numbered_keys_distinct(prefix: Seq<char>, count: nat, step: nat, i: int, j: int)
    requires
        0 <= i < count,
        0 <= j < count,
        i != j,
    ensures
        numbered_entries(prefix, count, step)[i].0 != numbered_entries(prefix, count, step)[j].0,
{
    let ki = numbered_key(prefix, i as nat);
    let kj = numbered_key(prefix, j as nat);
    if ki == kj {
        assert(ki.subrange(prefix.len() as int, ki.len() as int) =~= decimal(i as nat));
        assert(kj.subrange(prefix.len() as int, kj.len() as int) =~= decimal(j as nat));
        lemma_decimal_injective(i as nat, j as nat);
    }
}

} // verus!
