//! Character-level text helpers used by the session ranking: ASCII case
//! folding, substring search and joining with a separator.
use vstd::prelude::*;

verus! {

/// ASCII lower-casing of one character: `A`..=`Z` map to `a`..=`z`, every
/// other character is left as it is.
pub open spec fn ascii_lower_char(c: char) -> char {
    if 'A' <= c && c <= 'Z' {
        ((c as u32) + 32) as char
    } else {
        c
    }
}

/// ASCII lower-casing of a whole text, character by character.
pub open spec fn ascii_lower(s: Seq<char>) -> Seq<char> {
    s.map_values(|c: char| ascii_lower_char(c))
}

/// `needle` occurs in `hay` as a contiguous block (the empty text occurs
/// everywhere).
pub open spec fn contains_seq(hay: Seq<char>, needle: Seq<char>) -> bool {
    exists|i: int|
        0 <= i && i + needle.len() <= hay.len() && #[trigger] hay.subrange(i, i + needle.len())
            == needle
}

/// The texts of `parts` joined with `sep` between consecutive ones.
pub open spec fn join_seq(parts: Seq<Seq<char>>, sep: Seq<char>) -> Seq<char>
    decreases parts.len(),
{
    if parts.len() == 0 {
        Seq::empty()
    } else if parts.len() == 1 {
        parts[0]
    } else {
        join_seq(parts.drop_last(), sep) + sep + parts.last()
    }
}

/// Lower-casing is idempotent.
pub proof fn lemma_ascii_lower_idempotent(s: Seq<char>)
    ensures
        ascii_lower(ascii_lower(s)) == ascii_lower(s),
{
    assert(ascii_lower(ascii_lower(s)) =~= ascii_lower(s));
}

/// One character lower-cased.
pub fn lower_char(c: char) -> (r: char)
    ensures
        r == ascii_lower_char(c),
{
    if 'A' <= c && c <= 'Z' {
        let code: u32 = (c as u32) + 32;
        let low: u8 = code as u8;
        low as char
    } else {
        c
    }
}

/// The characters of `s`, lower-cased as ASCII.
pub fn lower_chars(s: &str) -> (r: Vec<char>)
    ensures
        r@ == ascii_lower(s@),
{
    let n = s.unicode_len();
    let mut out: Vec<char> = Vec::new();
    let mut i: usize = 0;
    while i < n
        invariant
            n == s@.len(),
            i <= n,
            out@ == ascii_lower(s@.subrange(0, i as int)),
        decreases n - i,
    {
        let c = s.get_char(i);
        out.push(lower_char(c));
        assert(s@.subrange(0, i + 1) =~= s@.subrange(0, i as int).push(c));
        i = i + 1;
        assert(out@ =~= ascii_lower(s@.subrange(0, i as int)));
    }
    assert(s@.subrange(0, n as int) =~= s@);
    out
}

/// Whether `needle` occurs as a contiguous block of `hay`.
pub fn contains_chars(hay: &Vec<char>, needle: &Vec<char>) -> (r: bool)
    ensures
        r == contains_seq(hay@, needle@),
{
    let h = hay.len();
    let m = needle.len();
    if m > h {
        return false;
    }
    let mut i: usize = 0;
    while i <= h - m
        invariant
            h == hay@.len(),
            m == needle@.len(),
            m <= h,
            i <= h - m + 1,
            forall|k: int| 0 <= k < i ==> #[trigger] hay@.subrange(k, k + m) != needle@,
        decreases h - m + 1 - i,
    {
        let mut j: usize = 0;
        let mut same = true;
        while j < m
            invariant
                h == hay@.len(),
                m == needle@.len(),
                i + m <= h,
                j <= m,
                same == (forall|t: int| 0 <= t < j ==> hay@[i + t] == needle@[t]),
            decreases m - j,
        {
            if hay[i + j] != needle[j] {
                same = false;
            }
            j = j + 1;
        }
        if same {
            assert(hay@.subrange(i as int, i + m) =~= needle@);
            return true;
        }
        assert(hay@.subrange(i as int, i + m) != needle@) by {
            let t = choose|t: int| 0 <= t < m && hay@[i + t] != needle@[t];
            assert(hay@.subrange(i as int, i + m)[t] == hay@[i + t]);
        }
        i = i + 1;
    }
    assert forall|k: int|
        0 <= k && k + needle@.len() <= hay@.len() implies #[trigger] hay@.subrange(
        k,
        k + needle@.len(),
    ) != needle@ by {
        assert(k < i);
    }
    false
}

/// The texts of `parts` joined with `sep` between consecutive ones, as
/// `[String]::join` does.
pub fn join_with(parts: &Vec<String>, sep: &str) -> (r: String)
    ensures
        r@ == join_seq(parts@.map_values(|p: String| p@), sep@),
{
    let ghost views = parts@.map_values(|p: String| p@);
    let mut out = String::new();
    let mut i: usize = 0;
    while i < parts.len()
        invariant
            views == parts@.map_values(|p: String| p@),
            i <= parts@.len(),
            out@ == join_seq(views.subrange(0, i as int), sep@),
        decreases parts@.len() - i,
    {
        let ghost before = views.subrange(0, i as int);
        if i > 0 {
            out.append(sep);
        }
        out.append(parts[i].as_str());
        proof {
            let after = views.subrange(0, i + 1);
            assert(after.drop_last() =~= before);
            assert(after.last() == parts@[i as int]@);
            if i == 0 {
                assert(after.len() == 1);
            }
        }
        i = i + 1;
    }
    assert(views.subrange(0, parts@.len() as int) =~= views);
    out
}

/// Whether two character vectors hold the same text.
pub fn chars_equal(a: &Vec<char>, b: &Vec<char>) -> (r: bool)
    ensures
        r == (a@ == b@),
{
    if a.len() != b.len() {
        return false;
    }
    let n = a.len();
    let mut i: usize = 0;
    while i < n
        invariant
            n == a@.len(),
            n == b@.len(),
            i <= n,
            forall|k: int| 0 <= k < i ==> a@[k] == b@[k],
        decreases n - i,
    {
        if a[i] != b[i] {
            return false;
        }
        i = i + 1;
    }
    assert(a@ =~= b@);
    true
}

/// Joining nothing gives the empty text.
pub proof fn lemma_join_empty(sep: Seq<char>)
    ensures
        join_seq(Seq::<Seq<char>>::empty(), sep) == Seq::<char>::empty(),
{
}

/// Joining a single part gives that part, whole.
pub proof fn lemma_join_single(part: Seq<char>, sep: Seq<char>)
    ensures
        join_seq(seq![part], sep) == part,
{
}

/// Appending a part to a non-empty list appends the separator and the whole
/// part to the joined text.
pub proof fn lemma_join_push(parts: Seq<Seq<char>>, part: Seq<char>, sep: Seq<char>)
    requires
        parts.len() > 0,
    ensures
        join_seq(parts.push(part), sep) == join_seq(parts, sep) + sep + part,
{
    assert(parts.push(part).drop_last() =~= parts);
}

/// The sum of the lengths of the parts.
pub open spec fn total_len(parts: Seq<Seq<char>>) -> nat
    decreases parts.len(),
{
    if parts.len() == 0 {
        0
    } else {
        total_len(parts.drop_last()) + parts.last().len()
    }
}

/// Joining keeps every part whole: the joined text is as long as all parts
/// together plus one separator between each two consecutive parts.
pub proof fn lemma_join_len(parts: Seq<Seq<char>>, sep: Seq<char>)
    requires
        parts.len() > 0,
    ensures
        join_seq(parts, sep).len() == total_len(parts) + (parts.len() - 1) * sep.len(),
    decreases parts.len(),
{
    if parts.len() > 1 {
        lemma_join_len(parts.drop_last(), sep);
        assert((parts.len() - 1) * sep.len() == (parts.len() - 2) * sep.len() + sep.len()) by (nonlinear_arith);
    } else {
        assert(total_len(parts.drop_last()) == 0);
    }
}

/// Each part occurs, whole, in the joined text.
pub proof fn lemma_join_contains_parts(parts: Seq<Seq<char>>, sep: Seq<char>, k: int)
    requires
        0 <= k < parts.len(),
    ensures
        contains_seq(join_seq(parts, sep), parts[k]),
    decreases parts.len(),
{
    let j = join_seq(parts, sep);
    if parts.len() == 1 {
        assert(j.subrange(0int, 0int + parts[k].len()) =~= parts[k]);
    } else if k == parts.len() - 1 {
        let pre = join_seq(parts.drop_last(), sep) + sep;
        assert(j == pre + parts.last());
        let i = pre.len() as int;
        assert(j.subrange(i, i + parts[k].len()) =~= parts[k]);
    } else {
        lemma_join_contains_parts(parts.drop_last(), sep, k);
        let inner = join_seq(parts.drop_last(), sep);
        assert(parts.drop_last()[k] == parts[k]);
        let i = choose|i: int| 0 <= i && i + parts[k].len() <= inner.len() && #[trigger] inner.subrange(i, i + parts[k].len()) == parts[k];
        assert(j == inner + sep + parts.last());
        assert(j.subrange(i, i + parts[k].len()) =~= inner.subrange(i, i + parts[k].len()));
    }
}

/// ASCII lower-casing maps exactly `A`..=`Z` to the letter 32 code points
/// further, `a`..=`z`, and leaves every other character as it is.
pub proof fn lemma_ascii_lower_char_by_code(c: char)
    ensures
        ('A' <= c && c <= 'Z') ==> ascii_lower_char(c) as u32 == c as u32 + 32 && 'a' <= ascii_lower_char(c)
            && ascii_lower_char(c) <= 'z',
        !('A' <= c && c <= 'Z') ==> ascii_lower_char(c) == c,
{
}

/// Lower-casing keeps the length and works character by character.
pub proof fn lemma_ascii_lower_pointwise(s: Seq<char>)
    ensures
        ascii_lower(s).len() == s.len(),
        forall|i: int| 0 <= i < s.len() ==> #[trigger] ascii_lower(s)[i] == ascii_lower_char(s[i]),
{
}

/// A text occurs in itself, the empty text occurs in every text, and a text
/// occurs in any text that has it as a block between two others.
pub proof fn lemma_contains_seq_basics(before: Seq<char>, needle: Seq<char>, after: Seq<char>)
    ensures
        contains_seq(needle, needle),
        contains_seq(before, Seq::<char>::empty()),
        contains_seq(before + needle + after, needle),
        needle.len() > before.len() ==> !contains_seq(before, needle),
{
    assert(needle.subrange(0int, 0int + needle.len()) =~= needle);
    assert(before.subrange(0int, 0int + 0int) =~= Seq::<char>::empty());
    let all = before + needle + after;
    let i = before.len() as int;
    assert(all.subrange(i, i + needle.len()) =~= needle);
}

} // verus!
