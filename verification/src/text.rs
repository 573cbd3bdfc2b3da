use vstd::prelude::*;

verus! {

/// Whether `c` carries the Unicode property `White_Space`.
pub open spec fn is_white_space(c: char) -> bool {
    let n = c as u32;
    ||| 0x09 <= n <= 0x0D
    ||| n == 0x20
    ||| n == 0x85
    ||| n == 0xA0
    ||| n == 0x1680
    ||| 0x2000 <= n <= 0x200A
    ||| n == 0x2028
    ||| n == 0x2029
    ||| n == 0x202F
    ||| n == 0x205F
    ||| n == 0x3000
}

/// Trusted: `char::is_whitespace` answers by the `White_Space` property, whose
/// code points `is_white_space` lists.
pub assume_specification[ char::is_whitespace ](c: char) -> (b: bool)
    ensures
        b == is_white_space(c),
;

/// `s` without the white space at its front.
pub open spec fn trim_start(s: Seq<char>) -> Seq<char>
    decreases s.len(),
{
    if s.len() > 0 && is_white_space(s.first()) {
        trim_start(s.drop_first())
    } else {
        s
    }
}

/// `s` without the white space at its end.
pub open spec fn trim_end(s: Seq<char>) -> Seq<char>
    decreases s.len(),
{
    if s.len() > 0 && is_white_space(s.last()) {
        trim_end(s.drop_last())
    } else {
        s
    }
}

/// `s` without the white space at either end.
pub open spec fn trimmed(s: Seq<char>) -> Seq<char> {
    trim_end(trim_start(s))
}

/// Trusted: `str::trim` returns the slice that is left when the leading and
/// the trailing white space, by the `White_Space` property, are removed.
pub assume_specification[ str::trim ](s: &str) -> (t: &str)
    ensures
        t@ == trimmed(s@),
;

/// The number of white-space characters in `s`.
pub open spec fn white_space_count(s: Seq<char>) -> nat {
    s.filter(|c: char| is_white_space(c)).len()
}

/// The word count of a line: one more than its white-space characters.
pub open spec fn word_count(s: Seq<char>) -> nat {
    white_space_count(s) + 1
}

/// Appending one character raises the white-space count by one exactly when
/// the character is white space.
pub proof fn lemma_white_space_count_push(s: Seq<char>, c: char)
    ensures
        white_space_count(s.push(c)) == white_space_count(s) + if is_white_space(c) {
            1nat
        } else {
            0nat
        },
{
    reveal(Seq::filter);
    assert(s.push(c).drop_last() =~= s);
}

/// A prefix holds no more white space than the whole.
pub proof fn lemma_white_space_count_prefix(s: Seq<char>, k: int)
    requires
        0 <= k <= s.len(),
    ensures
        white_space_count(s.take(k)) <= white_space_count(s),
{
    let pred = |c: char| is_white_space(c);
    assert(s =~= s.take(k) + s.skip(k));
    Seq::filter_distributes_over_add(s.take(k), s.skip(k), pred);
}

/// A line has at least one word and at most one more than it has characters.
pub proof fn lemma_word_count_bounds(s: Seq<char>)
    ensures
        1 <= word_count(s) <= s.len() + 1,
{
    s.lemma_filter_len(|c: char| is_white_space(c));
}

/// Counts the words of a line: its white-space characters, plus one.
pub fn count_words(s: &String) -> (words: i32)
    requires
        word_count(s@) <= i32::MAX,
    ensures
        words == word_count(s@),
        words >= 1,
{
    let mut words: i32 = 0;
    for c in it: s.as_str().chars()
        invariant
            it.seq() == s@,
            words == white_space_count(s@.take(it.index())),
            word_count(s@) <= i32::MAX,
    {
        proof {
            let i = it.index();
            assert(s@.take(i + 1) =~= s@.take(i).push(c));
            lemma_white_space_count_push(s@.take(i), c);
            lemma_white_space_count_prefix(s@, i + 1);
        }
        if c.is_whitespace() {
            words += 1;
        }
    }
    assert(s@.take(s@.len() as int) =~= s@);
    words + 1
}

/// Counts the words of a line as `count_words` does, for a line of any
/// length: `None` stands for a count that an `i32` cannot hold.
pub fn checked_count_words(s: &String) -> (words: Option<i32>)
    ensures
        words == if word_count(s@) <= i32::MAX {
            Some(word_count(s@) as i32)
        } else {
            None
        },
{
    let mut spaces: i32 = 0;
    for c in it: s.as_str().chars()
        invariant
            it.seq() == s@,
            spaces == white_space_count(s@.take(it.index())),
            spaces < i32::MAX,
    {
        proof {
            let i = it.index();
            assert(s@.take(i + 1) =~= s@.take(i).push(c));
            lemma_white_space_count_push(s@.take(i), c);
            lemma_white_space_count_prefix(s@, i + 1);
        }
        if c.is_whitespace() {
            if spaces == i32::MAX - 1 {
                return None;
            }
            spaces += 1;
        }
    }
    assert(s@.take(s@.len() as int) =~= s@);
    Some(spaces + 1)
}

} // verus!
