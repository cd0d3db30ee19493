use vstd::prelude::*;

verus! {

/// The whitespace characters the title derivation strips.
pub open spec fn is_space(c: char) -> bool {
    c == ' ' || c == '\t' || c == '\n' || c == '\r'
}

/// `s` without its leading whitespace.
pub open spec fn trim_front(s: Seq<char>) -> Seq<char>
    decreases s.len(),
{
    if s.len() > 0 && is_space(s[0]) {
        trim_front(s.skip(1))
    } else {
        s
    }
}

/// `s` without its trailing whitespace.
pub open spec fn trim_back(s: Seq<char>) -> Seq<char>
    decreases s.len(),
{
    if s.len() > 0 && is_space(s.last()) {
        trim_back(s.drop_last())
    } else {
        s
    }
}

/// The prefix of `s` before its first line break.
pub open spec fn line_prefix(s: Seq<char>) -> Seq<char>
    decreases s.len(),
{
    if s.len() == 0 || s[0] == '\n' {
        Seq::empty()
    } else {
        seq![s[0]] + line_prefix(s.skip(1))
    }
}

/// The title derived from homework content: the first non-empty line with
/// surrounding whitespace removed, cut to 60 characters with an ellipsis
/// marker when longer; a fixed label when the content is all whitespace.
pub open spec fn spec_title(s: Seq<char>) -> Seq<char> {
    let u = trim_front(s);
    if u.len() == 0 {
        "Zadanie domowe"@
    } else {
        let line = trim_back(line_prefix(u));
        if line.len() <= 60 {
            line
        } else {
            line.take(60) + "..."@
        }
    }
}

/// Dropping exactly the leading whitespace yields `trim_front`.
proof fn lemma_trim_front_skip(s: Seq<char>, a: int)
    requires
        0 <= a <= s.len(),
        forall|j: int| 0 <= j < a ==> is_space(#[trigger] s[j]),
        a < s.len() ==> !is_space(s[a]),
    ensures
        trim_front(s) == s.skip(a),
    decreases a,
{
    if a == 0 {
        assert(s.skip(0) =~= s);
    } else {
        assert(is_space(s[0]));
        lemma_trim_front_skip(s.skip(1), a - 1);
        assert(s.skip(1).skip(a - 1) =~= s.skip(a));
    }
}

/// Keeping exactly the prefix up to the trailing whitespace yields `trim_back`.
proof fn lemma_trim_back_take(s: Seq<char>, b: int)
    requires
        0 <= b <= s.len(),
        forall|j: int| b <= j < s.len() ==> is_space(#[trigger] s[j]),
        b > 0 ==> !is_space(s[b - 1]),
    ensures
        trim_back(s) == s.take(b),
    decreases s.len(),
{
    if s.len() == b {
        assert(s.take(b) =~= s);
    } else {
        assert(is_space(s[s.len() - 1]));
        lemma_trim_back_take(s.drop_last(), b);
        assert(s.drop_last().take(b) =~= s.take(b));
    }
}

/// The prefix before the first line break, by its index.
proof fn lemma_line_prefix_take(s: Seq<char>, p: int)
    requires
        0 <= p <= s.len(),
        forall|j: int| 0 <= j < p ==> #[trigger] s[j] != '\n',
        p < s.len() ==> s[p] == '\n',
    ensures
        line_prefix(s) == s.take(p),
    decreases p,
{
    if p == 0 {
        assert(s.take(0) =~= Seq::<char>::empty());
    } else {
        lemma_line_prefix_take(s.skip(1), p - 1);
        assert(seq![s[0]] + s.skip(1).take(p - 1) =~= s.take(p));
    }
}

/// Whether `c` counts as whitespace for title derivation.
pub fn is_space_char(c: char) -> (r: bool)
    ensures
        r == is_space(c),
{
    c == ' ' || c == '\t' || c == '\n' || c == '\r'
}

/// Derive a homework title from its content: the first non-empty line,
/// trimmed, cut to 60 characters plus `...` when longer, and the fixed
/// label `Zadanie domowe` when the content is all whitespace.
pub fn derive_title(content: &str) -> (r: String)
    ensures
        r@ == spec_title(content@),
{
    let n = content.unicode_len();
    let mut start: usize = 0;
    while start < n && is_space_char(content.get_char(start))
        invariant
            n == content@.len(),
            0 <= start <= n,
            forall|j: int| 0 <= j < start ==> is_space(#[trigger] content@[j]),
        decreases n - start,
    {
        start = start + 1;
    }
    if start == n {
        proof {
            lemma_trim_front_skip(content@, n as int);
            assert(content@.skip(n as int).len() == 0);
        }
        return String::from_str("Zadanie domowe");
    }
    proof {
        lemma_trim_front_skip(content@, start as int);
    }
    let mut stop: usize = start;
    while stop < n && content.get_char(stop) != '\n'
        invariant
            n == content@.len(),
            start <= stop <= n,
            forall|j: int| start <= j < stop ==> #[trigger] content@[j] != '\n',
        decreases n - stop,
    {
        stop = stop + 1;
    }
    proof {
        assert(stop > start) by {
            if stop == start {
                assert(content@[start as int] == '\n');
            }
        }
    }
    let mut end: usize = stop;
    while end > start && is_space_char(content.get_char(end - 1))
        invariant
            n == content@.len(),
            start < end <= stop <= n,
            !is_space(content@[start as int]),
            forall|j: int| end <= j < stop ==> is_space(#[trigger] content@[j]),
        decreases end,
    {
        end = end - 1;
    }
    proof {
        let u = content@.skip(start as int);
        assert(u[0] == content@[start as int]);
        lemma_line_prefix_take(u, stop as int - start as int);
        lemma_trim_back_take(
            u.take(stop as int - start as int),
            end as int - start as int,
        );
        assert(u.take(stop as int - start as int).take(end as int - start as int) =~= u.take(
            end as int - start as int,
        ));
        assert(u.take(end as int - start as int) =~= content@.subrange(
            start as int,
            end as int,
        ));
    }
    if end - start <= 60 {
        let sub = content.substring_char(start, end);
        String::from_str(sub)
    } else {
        let sub = content.substring_char(start, start + 60);
        let mut r = String::from_str(sub);
        r.append("...");
        proof {
            assert(content@.subrange(start as int, start as int + 60) =~= content@.subrange(
                start as int,
                end as int,
            ).take(60));
        }
        r
    }
}

} // verus!
