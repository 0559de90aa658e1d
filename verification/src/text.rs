//! Character-level text helpers: white space, trimming and splitting into words.

use vstd::prelude::*;
use vstd::std_specs::iter::IteratorSpec;
use vstd::utf8::{decode_utf8, valid_utf8};

verus! {

/// Whether `c` is one of the Unicode `White_Space` code points.
pub open spec fn is_space(c: char) -> bool {
    let u = c as u32;
    ||| 0x09 <= u <= 0x0D
    ||| u == 0x20
    ||| u == 0x85
    ||| u == 0xA0
    ||| u == 0x1680
    ||| 0x2000 <= u <= 0x200A
    ||| u == 0x2028
    ||| u == 0x2029
    ||| u == 0x202F
    ||| u == 0x205F
    ||| u == 0x3000
}

/// Decides `is_space` for one character.
pub fn is_whitespace(c: char) -> (r: bool)
    ensures
        r == is_space(c),
{
    let u: u32 = c as u32;
    (0x09 <= u && u <= 0x0D) || u == 0x20 || u == 0x85 || u == 0xA0 || u == 0x1680 || (0x2000 <= u
        && u <= 0x200A) || u == 0x2028 || u == 0x2029 || u == 0x202F || u == 0x205F || u == 0x3000
}

/// The characters of `s`, one by one.
pub fn chars_of(s: &str) -> (r: Vec<char>)
    ensures
        r@ == s@,
{
    broadcast use vstd::string::group_string_axioms;

    let mut out: Vec<char> = Vec::new();
    let mut it = s.chars();
    loop
        invariant
            out@ + it.remaining() == s@,
            it.decrease() is Some,
        ensures
            out@ == s@,
        decreases it.decrease()->0,
    {
        match it.next() {
            Some(c) => {
                assert(out@.push(c) + it.remaining() =~= s@);
                out.push(c);
            },
            None => {
                assert(out@ =~= s@);
                break ;
            },
        }
    }
    out
}

/// `s` without its leading white space.
pub open spec fn trim_start(s: Seq<char>) -> Seq<char>
    decreases s.len(),
{
    if s.len() > 0 && is_space(s.first()) {
        trim_start(s.drop_first())
    } else {
        s
    }
}

/// `s` without its trailing white space.
pub open spec fn trim_end(s: Seq<char>) -> Seq<char>
    decreases s.len(),
{
    if s.len() > 0 && is_space(s.last()) {
        trim_end(s.drop_last())
    } else {
        s
    }
}

/// `s` without the white space at either end.
pub open spec fn trimmed(s: Seq<char>) -> Seq<char> {
    trim_end(trim_start(s))
}

/// Whether `s` holds no white space at all.
pub open spec fn space_free(s: Seq<char>) -> bool {
    forall|i: int| 0 <= i < s.len() ==> !is_space(#[trigger] s[i])
}

/// Whether `s` holds nothing but white space.
pub open spec fn blank(s: Seq<char>) -> bool {
    forall|i: int| 0 <= i < s.len() ==> is_space(#[trigger] s[i])
}

/// Whether `s` can stand as one word: it is not empty and holds no white space.
pub open spec fn is_word(s: Seq<char>) -> bool {
    s.len() > 0 && space_free(s)
}

/// Length of the longest prefix of `s` that holds no white space.
pub open spec fn word_len(s: Seq<char>) -> nat
    decreases s.len(),
{
    if s.len() == 0 || is_space(s.first()) {
        0
    } else {
        1 + word_len(s.drop_first())
    }
}

/// The words of `s`: its maximal runs of characters other than white space, in order.
pub open spec fn words(s: Seq<char>) -> Seq<Seq<char>>
    decreases s.len(),
{
    if s.len() == 0 {
        Seq::empty()
    } else if is_space(s.first()) {
        words(s.drop_first())
    } else {
        let n = word_len(s) as int;
        proof {
            lemma_word_len_bound(s);
        }
        seq![s.take(n)] + words(s.skip(n))
    }
}

/// A leading word never runs past the end of the text.
pub proof fn lemma_word_len_bound(s: Seq<char>)
    ensures
        word_len(s) <= s.len(),
        s.len() > 0 && !is_space(s.first()) ==> word_len(s) >= 1,
    decreases s.len(),
{
    if s.len() > 0 && !is_space(s.first()) {
        lemma_word_len_bound(s.drop_first());
    }
}

/// The leading word of `s` ends at `k` when no white space comes before `k` and
/// the text ends or white space stands there.
pub proof fn lemma_word_len_at(s: Seq<char>, k: int)
    requires
        0 <= k <= s.len(),
        space_free(s.take(k)),
        k == s.len() || is_space(s[k]),
    ensures
        word_len(s) == k,
    decreases k,
{
    if k == 0 {
    } else {
        assert(s.take(k)[0] == s[0]);
        let t = s.drop_first();
        assert forall|i: int| 0 <= i < k - 1 implies !is_space(#[trigger] t.take(k - 1)[i]) by {
            assert(t.take(k - 1)[i] == s.take(k)[i + 1]);
        }
        lemma_word_len_at(t, k - 1);
    }
}

/// Leading white space of length `k` is what `trim_start` removes.
pub proof fn lemma_trim_start_at(s: Seq<char>, k: int)
    requires
        0 <= k <= s.len(),
        blank(s.take(k)),
        k == s.len() || !is_space(s[k]),
    ensures
        trim_start(s) == s.skip(k),
    decreases k,
{
    if k == 0 {
        assert(s.skip(0) =~= s);
    } else {
        assert(s.take(k)[0] == s[0]);
        let t = s.drop_first();
        assert forall|i: int| 0 <= i < k - 1 implies is_space(#[trigger] t.take(k - 1)[i]) by {
            assert(t.take(k - 1)[i] == s.take(k)[i + 1]);
        }
        lemma_trim_start_at(t, k - 1);
        assert(t.skip(k - 1) =~= s.skip(k));
    }
}

/// Trailing white space from `k` on is what `trim_end` removes.
pub proof fn lemma_trim_end_at(s: Seq<char>, k: int)
    requires
        0 <= k <= s.len(),
        blank(s.skip(k)),
        k == 0 || !is_space(s[k - 1]),
    ensures
        trim_end(s) == s.take(k),
    decreases s.len() - k,
{
    if k == s.len() {
        assert(s.take(k) =~= s);
    } else {
        assert(s.skip(k)[s.len() - k - 1] == s.last());
        let t = s.drop_last();
        assert forall|i: int| 0 <= i < t.len() - k implies is_space(#[trigger] t.skip(k)[i]) by {
            assert(t.skip(k)[i] == s.skip(k)[i]);
        }
        lemma_trim_end_at(t, k);
        assert(t.take(k) =~= s.take(k));
    }
}

/// The leading word of a text holds no white space and ends where the text ends or white
/// space stands.
pub proof fn lemma_word_len_ends(s: Seq<char>)
    ensures
        word_len(s) <= s.len(),
        space_free(s.take(word_len(s) as int)),
        word_len(s) == s.len() || is_space(s[word_len(s) as int]),
    decreases s.len(),
{
    if s.len() == 0 || is_space(s.first()) {
    } else {
        let t = s.drop_first();
        lemma_word_len_ends(t);
        let n = word_len(s) as int;
        assert forall|i: int| 0 <= i < n implies !is_space(#[trigger] s.take(n)[i]) by {
            if i > 0 {
                assert(s.take(n)[i] == t.take(n - 1)[i - 1]);
            }
        }
    }
}

/// Every word of a text is a word: it is not empty and holds no white space.
pub proof fn lemma_words_are_words(s: Seq<char>)
    ensures
        forall|i: int| 0 <= i < words(s).len() ==> is_word(#[trigger] words(s)[i]),
    decreases s.len(),
{
    if s.len() == 0 {
        assert(words(s).len() == 0);
    } else if is_space(s.first()) {
        lemma_words_are_words(s.drop_first());
        assert(words(s) == words(s.drop_first()));
    } else {
        let n = word_len(s) as int;
        lemma_word_len_bound(s);
        lemma_word_len_ends(s);
        lemma_words_are_words(s.skip(n));
        let rest = words(s.skip(n));
        assert(words(s) == seq![s.take(n)] + rest);
        assert forall|i: int| 0 <= i < words(s).len() implies is_word(#[trigger] words(s)[i]) by {
            if i > 0 {
                assert(words(s)[i] == rest[i - 1]);
            } else {
                assert(words(s)[0] == s.take(n));
            }
        }
    }
}

/// A word is its own and only word.
pub proof fn lemma_words_of_word(w: Seq<char>)
    requires
        is_word(w),
    ensures
        words(w) == seq![w],
{
    assert(w.take(w.len() as int) =~= w);
    lemma_word_len_at(w, w.len() as int);
    assert(!is_space(w[0]));
    let rest = w.skip(w.len() as int);
    assert(rest =~= Seq::<char>::empty());
    assert(words(rest) =~= Seq::<Seq<char>>::empty());
    assert(words(w) == seq![w.take(w.len() as int)] + words(rest));
    assert(words(w) =~= seq![w]);
}

/// Where two texts meet at white space, or one of them is empty, the words of the whole are
/// the words of the first followed by the words of the second.
pub proof fn lemma_words_concat(a: Seq<char>, b: Seq<char>)
    requires
        a.len() == 0 || b.len() == 0 || is_space(a.last()) || is_space(b.first()),
    ensures
        words(a + b) == words(a) + words(b),
    decreases a.len(),
{
    let whole = a + b;
    if a.len() == 0 {
        assert(whole =~= b);
        assert(words(a) + words(b) =~= words(b));
    } else if is_space(a.first()) {
        assert(whole.first() == a.first());
        assert(whole.drop_first() =~= a.drop_first() + b);
        if a.drop_first().len() > 0 {
            assert(a.drop_first().last() == a.last());
        }
        lemma_words_concat(a.drop_first(), b);
    } else {
        assert(whole.first() == a.first());
        let n = word_len(a) as int;
        lemma_word_len_bound(a);
        lemma_word_len_ends(a);
        assert(whole.take(n) =~= a.take(n));
        if n == a.len() {
            assert(a.take(n) =~= a);
            assert(!is_space(a.last()));
            if b.len() > 0 {
                assert(whole[n] == b.first());
            }
        } else {
            assert(whole[n] == a[n]);
        }
        lemma_word_len_at(whole, n);
        assert(whole.skip(n) =~= a.skip(n) + b);
        if a.skip(n).len() > 0 {
            assert(a.skip(n).last() == a.last());
        }
        lemma_words_concat(a.skip(n), b);
        assert(words(whole) =~= words(a) + words(b));
    }
}

/// Copies `s` without the white space at either end.
pub fn trim(s: &str) -> (r: String)
    ensures
        r@ == trimmed(s@),
{
    let chars = chars_of(s);
    let n = chars.len();
    let mut start: usize = 0;
    while start < n && is_whitespace(chars[start])
        invariant
            start <= n,
            n == chars@.len(),
            blank(chars@.take(start as int)),
        decreases n - start,
    {
        start = start + 1;
    }
    let mut end: usize = n;
    while end > start && is_whitespace(chars[end - 1])
        invariant
            start <= end <= n,
            n == chars@.len(),
            blank(chars@.skip(end as int)),
        decreases end,
    {
        proof {
            let shorter = chars@.skip(end as int);
            let longer = chars@.skip(end - 1);
            assert forall|i: int| 0 <= i < longer.len() implies is_space(#[trigger] longer[i]) by {
                if i > 0 {
                    assert(longer[i] == shorter[i - 1]);
                }
            }
        }
        end = end - 1;
    }
    proof {
        let whole = s@;
        let rest = whole.skip(start as int);
        lemma_trim_start_at(whole, start as int);
        assert forall|i: int| 0 <= i < rest.len() - (end - start) implies is_space(
            #[trigger] rest.skip(end - start)[i],
        ) by {
            assert(rest.skip(end - start)[i] == whole.skip(end as int)[i]);
        }
        lemma_trim_end_at(rest, end - start);
        assert(rest.take(end - start) =~= whole.subrange(start as int, end as int));
    }
    s.substring_char(start, end).to_owned()
}

/// Splits `s` at white space into its words, in order.
pub fn split_words(s: &str) -> (r: Vec<String>)
    ensures
        r.deep_view() == words(s@),
{
    let chars = chars_of(s);
    let n = chars.len();
    let mut out: Vec<String> = Vec::new();
    let mut at: usize = 0;
    proof {
        assert(s@.skip(0) =~= s@);
        assert(out.deep_view() + words(s@) =~= words(s@));
    }
    while at < n
        invariant
            at <= n,
            n == chars@.len(),
            chars@ == s@,
            out.deep_view() + words(s@.skip(at as int)) == words(s@),
        decreases n - at,
    {
        let ghost tail = s@.skip(at as int);
        if is_whitespace(chars[at]) {
            assert(tail.drop_first() =~= s@.skip(at + 1));
            at = at + 1;
        } else {
            let mut stop: usize = at + 1;
            while stop < n && !is_whitespace(chars[stop])
                invariant
                    at < stop <= n,
                    n == chars@.len(),
                    chars@ == s@,
                    space_free(s@.subrange(at as int, stop as int)),
                decreases n - stop,
            {
                stop = stop + 1;
            }
            let word = s.substring_char(at, stop).to_owned();
            proof {
                assert(tail.take(stop - at) =~= s@.subrange(at as int, stop as int));
                lemma_word_len_at(tail, stop - at);
                assert(tail.skip(stop - at) =~= s@.skip(stop as int));
                assert(out.deep_view().push(word@) + words(s@.skip(stop as int)) =~= out.deep_view()
                    + words(tail));
            }
            let ghost before = out.deep_view();
            out.push(word);
            assert(out.deep_view() =~= before.push(word@));
            at = stop;
        }
    }
    assert(s@.skip(n as int) =~= Seq::<char>::empty());
    assert(out.deep_view() + Seq::<Seq<char>>::empty() =~= out.deep_view());
    out
}

/// The text with which `std::str::from_utf8` turns down bytes that are not well-formed UTF-8.
pub uninterp spec fn utf8_error_text(bytes: Seq<u8>) -> Seq<char>;

/// The text that `String::from_utf8_lossy` makes of bytes, well-formed or not.
pub uninterp spec fn lossy_text(bytes: Seq<u8>) -> Seq<char>;

/// `std::str::from_utf8`: succeeds exactly on well-formed UTF-8 and then gives the characters
/// that the bytes encode; otherwise the error's own text is handed back.
#[verifier::external_body]
pub(crate) fn decode_text(bytes: &[u8]) -> (r: Result<&str, String>)
    ensures
        r is Ok <==> valid_utf8(bytes@),
        r is Ok ==> r->Ok_0@ == decode_utf8(bytes@),
        r is Err ==> r->Err_0@ == utf8_error_text(bytes@),
{
    match std::str::from_utf8(bytes) {
        Ok(text) => Ok(text),
        Err(error) => Err(error.to_string()),
    }
}

/// `String::from_utf8_lossy`: well-formed UTF-8 comes back as the characters it encodes; what
/// it makes of other bytes is only named.
#[verifier::external_body]
pub(crate) fn decode_lossy(bytes: &[u8]) -> (r: String)
    ensures
        r@ == lossy_text(bytes@),
        valid_utf8(bytes@) ==> r@ == decode_utf8(bytes@),
{
    String::from_utf8_lossy(bytes).into_owned()
}

} // verus!
