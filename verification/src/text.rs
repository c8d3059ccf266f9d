//! Text primitives on instruction lines: common prefixes, trimming, joining.

use vstd::prelude::*;

verus! {

/// Number of leading characters that `a` and `b` share.
pub open spec fn common_prefix_len(a: Seq<char>, b: Seq<char>) -> nat
    decreases a.len(),
{
    if a.len() == 0 || b.len() == 0 || a[0] != b[0] {
        0
    } else {
        1 + common_prefix_len(a.skip(1), b.skip(1))
    }
}

/// The shared prefix is a prefix of both texts, and it is the longest one:
/// the texts agree on every position below it and differ, or one of them
/// ends, at it.
pub proof fn lemma_common_prefix_len(a: Seq<char>, b: Seq<char>)
    ensures
        common_prefix_len(a, b) <= a.len(),
        common_prefix_len(a, b) <= b.len(),
        forall|k: int| 0 <= k < common_prefix_len(a, b) ==> a[k] == b[k],
        ({
            let n = common_prefix_len(a, b) as int;
            n < a.len() && n < b.len() ==> a[n] != b[n]
        }),
    decreases a.len(),
{
    if a.len() == 0 || b.len() == 0 || a[0] != b[0] {
    } else {
        let n = common_prefix_len(a.skip(1), b.skip(1)) as int;
        lemma_common_prefix_len(a.skip(1), b.skip(1));
        assert forall|k: int| 0 <= k < common_prefix_len(a, b) implies a[k] == b[k] by {
            if k > 0 {
                assert(a.skip(1)[k - 1] == a[k]);
                assert(b.skip(1)[k - 1] == b[k]);
            }
        }
        if n + 1 < a.len() && n + 1 < b.len() {
            assert(a.skip(1)[n] == a[n + 1]);
            assert(b.skip(1)[n] == b[n + 1]);
        }
    }
}

/// Any length up to which two texts agree is at most their shared prefix.
pub proof fn lemma_agreement_bounds_prefix(a: Seq<char>, b: Seq<char>, n: nat)
    requires
        n <= a.len(),
        n <= b.len(),
        forall|k: int| 0 <= k < n ==> a[k] == b[k],
    ensures
        n <= common_prefix_len(a, b),
    decreases n,
{
    if n > 0 {
        assert(a[0] == b[0]);
        assert forall|k: int| 0 <= k < n - 1 implies a.skip(1)[k] == b.skip(1)[k] by {
            assert(a.skip(1)[k] == a[k + 1]);
            assert(b.skip(1)[k] == b[k + 1]);
        }
        lemma_agreement_bounds_prefix(a.skip(1), b.skip(1), (n - 1) as nat);
    }
}

/// The shared prefix does not depend on the order of the two texts.
pub proof fn lemma_common_prefix_symmetric(a: Seq<char>, b: Seq<char>)
    ensures
        common_prefix_len(a, b) == common_prefix_len(b, a),
    decreases a.len(),
{
    if a.len() == 0 || b.len() == 0 || a[0] != b[0] {
    } else {
        lemma_common_prefix_symmetric(a.skip(1), b.skip(1));
    }
}

/// Counts the leading characters on which `a` and `b` agree, comparing
/// them one by one.
pub fn common_prefix(a: &str, b: &str) -> (n: usize)
    ensures
        n == common_prefix_len(a@, b@),
{
    let la: usize = a.unicode_len();
    let lb: usize = b.unicode_len();
    let mut n: usize = 0;
    while n < la && n < lb && a.get_char(n) == b.get_char(n)
        invariant
            la == a@.len(),
            lb == b@.len(),
            n <= la,
            n <= lb,
            forall|k: int| 0 <= k < n ==> a@[k] == b@[k],
        decreases la - n,
    {
        n = n + 1;
    }
    proof {
        lemma_common_prefix_len(a@, b@);
        lemma_agreement_bounds_prefix(a@, b@, n as nat);
    }
    n
}

/// Whether `c` has the Unicode property `White_Space`.
pub uninterp spec fn is_white_space(c: char) -> bool;

/// `char::is_whitespace` of the standard library, which is documented to
/// tell whether a character has the Unicode property `White_Space`. The
/// property is given a name here, and nothing more is claimed of it.
#[verifier::external_body]
fn is_whitespace(c: char) -> (b: bool)
    ensures
        b == is_white_space(c),
{
    c.is_whitespace()
}

/// `s` without its leading white space.
pub open spec fn trim_start(s: Seq<char>) -> Seq<char>
    decreases s.len(),
{
    if s.len() == 0 || !is_white_space(s.first()) {
        s
    } else {
        trim_start(s.skip(1))
    }
}

/// `s` without its trailing white space.
pub open spec fn trim_end(s: Seq<char>) -> Seq<char>
    decreases s.len(),
{
    if s.len() == 0 || !is_white_space(s.last()) {
        s
    } else {
        trim_end(s.drop_last())
    }
}

/// `s` without the white space that surrounds it.
pub open spec fn trimmed(s: Seq<char>) -> Seq<char> {
    trim_end(trim_start(s))
}

/// Where the first `a` characters are white and the next one is not,
/// trimming the start removes exactly those `a`.
pub proof fn lemma_trim_start(s: Seq<char>, a: nat)
    requires
        a <= s.len(),
        forall|k: int| 0 <= k < a ==> is_white_space(#[trigger] s[k]),
        a == s.len() || !is_white_space(s[a as int]),
    ensures
        trim_start(s) == s.subrange(a as int, s.len() as int),
    decreases a,
{
    if a == 0 {
        assert(s.subrange(0, s.len() as int) =~= s);
    } else {
        assert(is_white_space(s[0]));
        let rest = s.skip(1);
        assert forall|k: int| 0 <= k < a - 1 implies is_white_space(#[trigger] rest[k]) by {
            assert(rest[k] == s[k + 1]);
        }
        lemma_trim_start(rest, (a - 1) as nat);
        assert(rest.subrange(a - 1, rest.len() as int) =~= s.subrange(a as int, s.len() as int));
    }
}

/// Where all characters from `b` on are white and the one before is not,
/// trimming the end keeps exactly the first `b`.
pub proof fn lemma_trim_end(s: Seq<char>, b: nat)
    requires
        b <= s.len(),
        forall|k: int| b <= k < s.len() ==> is_white_space(#[trigger] s[k]),
        b == 0 || !is_white_space(s[b - 1]),
    ensures
        trim_end(s) == s.subrange(0, b as int),
    decreases s.len() - b,
{
    if b == s.len() {
        assert(s.subrange(0, s.len() as int) =~= s);
    } else {
        assert(is_white_space(s[s.len() - 1]));
        let rest = s.drop_last();
        lemma_trim_end(rest, b);
        assert(rest.subrange(0, b as int) =~= s.subrange(0, b as int));
    }
}

/// Removes the white space that surrounds `s`.
pub fn trim(s: &str) -> (t: String)
    ensures
        t@ == trimmed(s@),
{
    let n: usize = s.unicode_len();
    let mut a: usize = 0;
    while a < n && is_whitespace(s.get_char(a))
        invariant
            n == s@.len(),
            a <= n,
            forall|k: int| 0 <= k < a ==> is_white_space(#[trigger] s@[k]),
        decreases n - a,
    {
        a = a + 1;
    }
    let mut b: usize = n;
    while b > a && is_whitespace(s.get_char(b - 1))
        invariant
            n == s@.len(),
            a <= b <= n,
            forall|k: int| b <= k < n ==> is_white_space(#[trigger] s@[k]),
        decreases b,
    {
        b = b - 1;
    }
    proof {
        lemma_trim_start(s@, a as nat);
        let kept = s@.subrange(a as int, n as int);
        assert forall|k: int| b - a <= k < kept.len() implies is_white_space(
            #[trigger] kept[k],
        ) by {
            assert(kept[k] == s@[k + a]);
        }
        lemma_trim_end(kept, (b - a) as nat);
        assert(kept.subrange(0, b - a) =~= s@.subrange(a as int, b as int));
    }
    s.substring_char(a, b).to_owned()
}

/// The lines as one text, each line followed by a line feed. So the last
/// line ends as every other one does.
pub open spec fn joined(lines: Seq<Seq<char>>) -> Seq<char>
    decreases lines.len(),
{
    if lines.len() == 0 {
        Seq::empty()
    } else {
        joined(lines.drop_last()) + lines.last() + seq!['\n']
    }
}

/// Joins the lines into one text, each line followed by a line feed.
pub fn join_lines(lines: &Vec<String>) -> (text: String)
    ensures
        text@ == joined(lines.deep_view()),
{
    let mut text = String::new();
    let mut k: usize = 0;
    assert(lines.deep_view().subrange(0, 0) =~= Seq::<Seq<char>>::empty());
    while k < lines.len()
        invariant
            k <= lines.len(),
            text@ == joined(lines.deep_view().subrange(0, k as int)),
        decreases lines.len() - k,
    {
        let ghost before = lines.deep_view().subrange(0, k as int);
        let ghost after = lines.deep_view().subrange(0, k + 1);
        text.append(lines[k].as_str());
        proof {
            reveal_strlit("\n");
        }
        text.append("\n");
        proof {
            assert("\n"@ =~= seq!['\n']);
            assert(after.drop_last() =~= before);
            assert(after.last() == lines[k as int]@);
        }
        k = k + 1;
    }
    assert(lines.deep_view().subrange(0, k as int) =~= lines.deep_view());
    text
}

} // verus!
