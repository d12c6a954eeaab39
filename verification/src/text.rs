//! Plain text: searching, repeating and writing numbers.

use vstd::prelude::*;
use vstd::string::*;

verus! {

/// Whether `pattern` stands in `s` at place `i`.
pub open spec fn occurs_at(s: Seq<char>, pattern: Seq<char>, i: int) -> bool {
    &&& 0 <= i
    &&& i + pattern.len() <= s.len()
    &&& s.subrange(i, i + pattern.len()) == pattern
}

/// The first place at or after `from` where `pattern` stands in `s`.
pub open spec fn find_from(s: Seq<char>, pattern: Seq<char>, from: int) -> Option<int>
    decreases s.len() + 1 - from,
{
    if from + pattern.len() > s.len() {
        None
    } else if occurs_at(s, pattern, from) {
        Some(from)
    } else {
        find_from(s, pattern, from + 1)
    }
}

/// The first place where `pattern` stands in `s`.
pub open spec fn find(s: Seq<char>, pattern: Seq<char>) -> Option<int> {
    find_from(s, pattern, 0)
}

/// What `find_from` finds is an occurrence with none between `from` and it; it finds nothing only
/// where there is none.
pub proof fn lemma_find_from(s: Seq<char>, pattern: Seq<char>, from: int)
    requires
        0 <= from,
    ensures
        match find_from(s, pattern, from) {
            Some(i) => {
                &&& from <= i
                &&& occurs_at(s, pattern, i)
                &&& forall|j: int| from <= j < i ==> !occurs_at(s, pattern, j)
            },
            None => forall|j: int| from <= j ==> !occurs_at(s, pattern, j),
        },
    decreases s.len() + 1 - from,
{
    if from + pattern.len() > s.len() {
    } else if occurs_at(s, pattern, from) {
    } else {
        lemma_find_from(s, pattern, from + 1);
    }
}

/// The part of `s` before the first `mark`, or all of `s` where there is none.
pub open spec fn before_mark(s: Seq<char>, mark: char) -> Seq<char> {
    match find(s, seq![mark]) {
        Some(i) => s.take(i),
        None => s,
    }
}

/// Searching a suffix finds the same places.
pub proof fn lemma_find_in_suffix(s: Seq<char>, pattern: Seq<char>, from: int, at: int)
    requires
        0 <= from <= s.len(),
        0 <= at,
    ensures
        find_from(s.skip(from), pattern, at) == match find_from(s, pattern, from + at) {
            Some(i) => Some(i - from),
            None => None::<int>,
        },
    decreases s.len() + 1 - from - at,
{
    let rest = s.skip(from);
    if at + pattern.len() <= rest.len() {
        assert(rest.subrange(at, at + pattern.len()) =~= s.subrange(
            from + at,
            from + at + pattern.len(),
        ));
        if !occurs_at(rest, pattern, at) {
            lemma_find_in_suffix(s, pattern, from, at + 1);
        }
    }
}

/// Searching a prefix finds the places that lie in it.
pub proof fn lemma_find_in_prefix(s: Seq<char>, pattern: Seq<char>, end: int, at: int)
    requires
        0 <= at,
        0 <= end <= s.len(),
    ensures
        find_from(s.take(end), pattern, at) == match find_from(s, pattern, at) {
            Some(i) => if i + pattern.len() <= end {
                Some(i)
            } else {
                None
            },
            None => None::<int>,
        },
    decreases s.len() + 1 - at,
{
    let front = s.take(end);
    if at + pattern.len() <= s.len() {
        if at + pattern.len() <= end {
            assert(front.subrange(at, at + pattern.len()) =~= s.subrange(at, at + pattern.len()));
            if !occurs_at(s, pattern, at) {
                lemma_find_in_prefix(s, pattern, end, at + 1);
            }
        } else {
            lemma_find_from(s, pattern, at);
        }
    }
}

/// The characters of `s`, one by one.
pub fn characters(s: &str) -> (r: Vec<char>)
    ensures
        r@ == s@,
{
    let mut r: Vec<char> = Vec::new();
    for c in it: s.chars()
        invariant
            it.seq() == s@,
            r@ == s@.take(it.index() as int),
    {
        r.push(c);
        proof {
            assert(s@.take(it.index() + 1) =~= s@.take(it.index() as int).push(c));
        }
    }
    proof {
        assert(s@.take(s@.len() as int) =~= s@);
    }
    r
}

/// Whether `pattern` stands in `s` at place `i`.
pub fn stands_at(s: &Vec<char>, pattern: &Vec<char>, i: usize) -> (r: bool)
    requires
        i + pattern.len() <= s.len(),
    ensures
        r == occurs_at(s@, pattern@, i as int),
{
    let mut k: usize = 0;
    while k < pattern.len()
        invariant
            k <= pattern.len(),
            i + pattern.len() <= s.len(),
            forall|j: int| 0 <= j < k ==> s@[i + j] == #[trigger] pattern@[j],
        decreases pattern.len() - k,
    {
        if s[i + k] != pattern[k] {
            proof {
                assert(s@.subrange(i as int, i + pattern@.len())[k as int] != pattern@[k as int]);
            }
            return false;
        }
        k = k + 1;
    }
    proof {
        assert(s@.subrange(i as int, i + pattern@.len()) =~= pattern@);
    }
    true
}

/// The first place at or after `from` where `pattern` stands in `s`.
pub fn position(s: &Vec<char>, pattern: &Vec<char>, from: usize) -> (r: Option<usize>)
    requires
        from <= s.len(),
    ensures
        r matches Some(i) ==> find_from(s@, pattern@, from as int) == Some(i as int) && i
            + pattern.len() <= s.len(),
        r is None ==> find_from(s@, pattern@, from as int) is None,
{
    let mut i: usize = from;
    while pattern.len() <= s.len() - i
        invariant
            find_from(s@, pattern@, from as int) == find_from(s@, pattern@, i as int),
            i <= s.len(),
        decreases s.len() - i,
    {
        if stands_at(s, pattern, i) {
            return Some(i);
        }
        if i == s.len() {
            proof {
                assert(find_from(s@, pattern@, i + 1) is None);
            }
            return None;
        }
        i = i + 1;
    }
    None
}

/// `n` copies of `s`, one after the other.
pub open spec fn copies(s: Seq<char>, n: nat) -> Seq<char>
    decreases n,
{
    if n == 0 {
        Seq::empty()
    } else {
        copies(s, (n - 1) as nat) + s
    }
}

/// `n` copies of `s`, one after the other.
pub fn repeat(s: &str, n: usize) -> (r: String)
    ensures
        r@ == copies(s@, n as nat),
{
    let mut r = String::new();
    let mut i: usize = 0;
    while i < n
        invariant
            i <= n,
            r@ == copies(s@, i as nat),
        decreases n - i,
    {
        r.append(s);
        i = i + 1;
    }
    r
}

/// As many copies of a text give as many times its length.
pub proof fn lemma_copies_len(s: Seq<char>, n: nat)
    ensures
        copies(s, n).len() == n * s.len(),
    decreases n,
{
    if n > 0 {
        lemma_copies_len(s, (n - 1) as nat);
        let m = n - 1;
        let l = s.len() as int;
        assert(m * l + l == (m + 1) * l) by (nonlinear_arith);
    } else {
        assert(0 * s.len() == 0);
    }
}

/// The decimal digit `d`.
pub open spec fn digit(d: nat) -> char {
    seq!['0', '1', '2', '3', '4', '5', '6', '7', '8', '9'][d as int]
}

/// `n` in decimal, without leading zeros.
pub open spec fn digits(n: nat) -> Seq<char>
    decreases n,
{
    if n < 10 {
        seq![digit(n)]
    } else {
        digits(n / 10).push(digit(n % 10))
    }
}

/// `n` in decimal, with a leading zero where it has only one digit.
pub open spec fn two_digits(n: nat) -> Seq<char> {
    if n < 10 {
        seq!['0'] + digits(n)
    } else {
        digits(n)
    }
}

fn digit_text(d: u64) -> (r: &'static str)
    requires
        d < 10,
    ensures
        r@ == seq![digit(d as nat)],
{
    proof {
        reveal_strlit("0");
        reveal_strlit("1");
        reveal_strlit("2");
        reveal_strlit("3");
        reveal_strlit("4");
        reveal_strlit("5");
        reveal_strlit("6");
        reveal_strlit("7");
        reveal_strlit("8");
        reveal_strlit("9");
    }
    let r = match d {
        0 => "0",
        1 => "1",
        2 => "2",
        3 => "3",
        4 => "4",
        5 => "5",
        6 => "6",
        7 => "7",
        8 => "8",
        _ => "9",
    };
    proof {
        assert(r@ =~= seq![digit(d as nat)]);
    }
    r
}

/// `n` in decimal, without leading zeros.
pub fn decimal(n: u64) -> (r: String)
    ensures
        r@ == digits(n as nat),
    decreases n,
{
    if n < 10 {
        digit_text(n).to_owned()
    } else {
        let mut r = decimal(n / 10);
        r.append(digit_text(n % 10));
        proof {
            assert(r@ =~= digits((n / 10) as nat).push(digit((n % 10) as nat)));
        }
        r
    }
}

/// `n` in decimal, with a leading zero where it has only one digit.
pub fn decimal_two(n: u64) -> (r: String)
    ensures
        r@ == two_digits(n as nat),
{
    if n < 10 {
        let mut r = "0".to_owned();
        let rest = decimal(n);
        r.append(rest.as_str());
        proof {
            reveal_strlit("0");
            assert(r@ =~= seq!['0'] + digits(n as nat));
        }
        r
    } else {
        decimal(n)
    }
}

/// `s` followed by as many spaces as it lacks to `width` characters.
pub open spec fn padded(s: Seq<char>, width: nat) -> Seq<char> {
    if s.len() < width {
        s + copies(" "@, (width - s.len()) as nat)
    } else {
        s
    }
}

/// `s` followed by as many spaces as it lacks to `width` characters.
pub fn pad(s: &str, width: usize) -> (r: String)
    ensures
        r@ == padded(s@, width as nat),
{
    let mut r = s.to_owned();
    let length: usize = s.unicode_len();
    if length < width {
        let rest = repeat(" ", width - length);
        r.append(rest.as_str());
    }
    r
}

/// Whether the two texts hold the same characters.
pub fn same_text(a: &str, b: &str) -> (r: bool)
    ensures
        r == (a@ == b@),
{
    let a = characters(a);
    let b = characters(b);
    if a.len() != b.len() {
        return false;
    }
    let r = stands_at(&a, &b, 0);
    proof {
        assert(a@.subrange(0, a@.len() as int) =~= a@);
    }
    r
}

/// What the decimal digits `s` stand for.
pub open spec fn number(s: Seq<char>) -> int
    decreases s.len(),
{
    if s.len() == 0 {
        0
    } else {
        10 * number(s.drop_last()) + (s.last() as int - '0' as int)
    }
}

/// A number in writing is that number: its digits, read in tens, give it back, and it has no
/// leading zero but for zero itself.
pub proof fn lemma_digits_read_back(n: nat)
    ensures
        number(digits(n)) == n,
        digits(n).len() > 0,
        digits(n)[0] == '0' ==> n == 0 && digits(n).len() == 1,
        forall|i: int| 0 <= i < digits(n).len() ==> '0' <= #[trigger] digits(n)[i] <= '9',
    decreases n,
{
    if n < 10 {
        reveal_with_fuel(number, 2);
        assert(digits(n).drop_last() =~= Seq::empty());
    } else {
        lemma_digits_read_back(n / 10);
        assert(digits(n).drop_last() =~= digits(n / 10));
        assert(digits(n)[0] == digits(n / 10)[0]);
    }
}

/// A number of one digit gets a zero in front, a longer one nothing, and both read back.
pub proof fn lemma_two_digits_read_back(n: nat)
    ensures
        number(two_digits(n)) == n,
        two_digits(n).len() >= 2,
        two_digits(n).len() > 2 ==> two_digits(n)[0] != '0',
        forall|i: int| 0 <= i < two_digits(n).len() ==> '0' <= #[trigger] two_digits(n)[i] <= '9',
{
    lemma_digits_read_back(n);
    if n < 10 {
        assert(two_digits(n).drop_last() =~= seq!['0']);
        assert(seq!['0'].drop_last() =~= Seq::<char>::empty());
        reveal_with_fuel(number, 3);
    } else {
        lemma_digits_read_back(n / 10);
    }
}

/// Each of the copies of a text is that text.
pub proof fn lemma_copies(s: Seq<char>, n: nat, k: int)
    requires
        0 <= k < n,
    ensures
        0 <= k * s.len() <= (k + 1) * s.len() <= copies(s, n).len(),
        copies(s, n).subrange(k * s.len(), (k + 1) * s.len()) == s,
    decreases n,
{
    let l = s.len() as int;
    let m = n - 1;
    lemma_copies_len(s, n);
    lemma_copies_len(s, (n - 1) as nat);
    assert(0 <= k * l <= (k + 1) * l <= n * l && (k + 1) * l == k * l + l && n * l == m * l + l)
        by (nonlinear_arith)
        requires
            0 <= k < n,
            0 <= l,
            m == n - 1,
    ;
    if k < m {
        lemma_copies(s, (n - 1) as nat, k);
        assert(copies(s, n).subrange(k * l, (k + 1) * l) =~= copies(s, (n - 1) as nat).subrange(
            k * l,
            (k + 1) * l,
        ));
    } else {
        assert(copies(s, n).subrange(k * l, (k + 1) * l) =~= s);
    }
}

/// The copies of a single character are that character, as often as asked for.
pub proof fn lemma_copies_of_one(c: char, n: nat)
    ensures
        copies(seq![c], n).len() == n,
        forall|i: int| 0 <= i < n ==> #[trigger] copies(seq![c], n)[i] == c,
    decreases n,
{
    if n > 0 {
        lemma_copies_of_one(c, (n - 1) as nat);
    }
}

/// A padded text begins with the text, has nothing but spaces behind it, and is as wide as asked
/// for or else as the text.
pub proof fn lemma_padded(s: Seq<char>, width: nat)
    ensures
        s.is_prefix_of(padded(s, width)),
        padded(s, width).len() == if s.len() < width {
            width
        } else {
            s.len()
        },
        forall|i: int| s.len() <= i < padded(s, width).len() ==> #[trigger] padded(s, width)[i] == ' ',
{
    reveal_strlit(" ");
    assert(" "@ =~= seq![' ']);
    if s.len() < width {
        lemma_copies_of_one(' ', (width - s.len()) as nat);
    }
    assert(s =~= padded(s, width).subrange(0, s.len() as int));
}

/// A pattern stands where the characters from there on are its own, one by one, and nowhere else.
pub proof fn lemma_occurs_at(s: Seq<char>, pattern: Seq<char>, i: int)
    requires
        0 <= i,
    ensures
        occurs_at(s, pattern, i) <==> i + pattern.len() <= s.len() && forall|j: int|
            0 <= j < pattern.len() ==> s[i + j] == #[trigger] pattern[j],
{
    if i + pattern.len() <= s.len() {
        let part = s.subrange(i, i + pattern.len());
        assert(forall|j: int| 0 <= j < pattern.len() ==> part[j] == s[i + j]);
        if forall|j: int| 0 <= j < pattern.len() ==> s[i + j] == #[trigger] pattern[j] {
            assert(part =~= pattern);
        }
    }
}

} // verus!
