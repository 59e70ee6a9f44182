use vstd::prelude::*;
use vstd::string::*;
use crate::error::GameError;

verus! {

/// The ASCII rendering that `unidecode` gives a text.
pub uninterp spec fn transliterated(s: Seq<char>) -> Seq<char>;

/// The lower-case form that `str::to_lowercase` gives a text.
pub uninterp spec fn lowercased(s: Seq<char>) -> Seq<char>;

/// A text with its diacritics folded away and in lower case.
pub open spec fn folded(s: Seq<char>) -> Seq<char> {
    lowercased(transliterated(s))
}

/// Unicode white space.
pub open spec fn is_space(c: char) -> bool {
    let n = c as u32;
    ||| 0x09 <= n <= 0x0d
    ||| n == 0x20
    ||| n == 0x85
    ||| n == 0xa0
    ||| n == 0x1680
    ||| 0x2000 <= n <= 0x200a
    ||| n == 0x2028
    ||| n == 0x2029
    ||| n == 0x202f
    ||| n == 0x205f
    ||| n == 0x3000
}

/// A lower-case ASCII letter or an ASCII digit.
pub open spec fn is_lower_alnum(c: char) -> bool {
    ('a' <= c <= 'z') || ('0' <= c <= '9')
}

/// A character that a team name keeps before its white space is folded.
pub open spec fn is_name_char(c: char) -> bool {
    is_space(c) || is_lower_alnum(c) || c == '-'
}

/// A character of a finished team name.
pub open spec fn is_id_char(c: char) -> bool {
    is_lower_alnum(c) || c == '-'
}

/// The characters of `s` that a team name keeps, in order.
pub open spec fn name_chars(s: Seq<char>) -> Seq<char> {
    s.filter(|c: char| is_name_char(c))
}

/// The characters of `s` that an answer keeps, in order.
pub open spec fn alnum_chars(s: Seq<char>) -> Seq<char> {
    s.filter(|c: char| is_lower_alnum(c))
}

/// `s` without its leading white space.
pub open spec fn trim_start(s: Seq<char>) -> Seq<char>
    decreases s.len(),
{
    if s.len() > 0 && is_space(s[0]) {
        trim_start(s.drop_first())
    } else {
        s
    }
}

/// `s` without its trailing white space.
pub open spec fn trim_end(s: Seq<char>) -> Seq<char>
    decreases s.len(),
{
    if s.len() > 0 && is_space(s.last()) {
        trim_end(s.drop_last())
    } else {
        s
    }
}

/// `s` with every run of white space replaced by one hyphen.
pub open spec fn hyphenated(s: Seq<char>) -> Seq<char>
    decreases s.len(),
{
    if s.len() == 0 {
        Seq::empty()
    } else if !is_space(s.last()) {
        hyphenated(s.drop_last()).push(s.last())
    } else if s.len() >= 2 && is_space(s[s.len() - 2]) {
        hyphenated(s.drop_last())
    } else {
        hyphenated(s.drop_last()).push('-')
    }
}

/// The kept characters of the folded name, trimmed: what is left to hyphenate.
pub open spec fn name_core(s: Seq<char>) -> Seq<char> {
    trim_end(trim_start(name_chars(folded(s))))
}

/// The canonical form of a team name, or `None` where nothing is left of it.
pub open spec fn sanitized_name(s: Seq<char>) -> Option<Seq<char>> {
    if name_core(s).len() == 0 {
        None
    } else {
        Some(hyphenated(name_core(s)))
    }
}

/// The canonical form of an answer or a guess.
pub open spec fn sanitized_answer(s: Seq<char>) -> Seq<char> {
    alnum_chars(folded(s))
}

/// Whether `a` comes before `b` or equals it, character by character in the
/// order of the code points; a text comes after each of its proper prefixes.
pub open spec fn text_le(a: Seq<char>, b: Seq<char>) -> bool
    decreases a.len(),
{
    if a.len() == 0 {
        true
    } else if b.len() == 0 {
        false
    } else if a[0] != b[0] {
        a[0] < b[0]
    } else {
        text_le(a.drop_first(), b.drop_first())
    }
}

/// Of two texts, one comes before the other or equals it.
pub proof fn lemma_text_le_total(a: Seq<char>, b: Seq<char>)
    ensures
        text_le(a, b) || text_le(b, a),
    decreases a.len(),
{
    if a.len() > 0 && b.len() > 0 && a[0] == b[0] {
        lemma_text_le_total(a.drop_first(), b.drop_first());
    }
}

/// `text_le`, computed.
pub fn text_precedes(a: &str, b: &str) -> (r: bool)
    ensures
        r == text_le(a@, b@),
{
    let n = a.unicode_len();
    let m = b.unicode_len();
    let mut i: usize = 0;
    assert(a@.skip(0) =~= a@ && b@.skip(0) =~= b@);
    while i < n && i < m
        invariant
            n == a@.len(),
            m == b@.len(),
            i <= n,
            i <= m,
            text_le(a@, b@) == text_le(a@.skip(i as int), b@.skip(i as int)),
        decreases n - i,
    {
        let x = a.get_char(i);
        let y = b.get_char(i);
        proof {
            assert(a@.skip(i as int).drop_first() =~= a@.skip(i + 1));
            assert(b@.skip(i as int).drop_first() =~= b@.skip(i + 1));
            assert(a@.skip(i as int)[0] == x);
            assert(b@.skip(i as int)[0] == y);
        }
        if x != y {
            return x < y;
        }
        i += 1;
    }
    i == n
}

/// Calls `unidecode::unidecode`, which maps each character to an ASCII text
/// from a fixed table and concatenates them. The result is a function of the
/// input alone; the contract gives it a name and says no more of it.
#[verifier::external_body]
fn transliterate(s: &str) -> (r: String)
    ensures
        r@ == transliterated(s@),
{
    unidecode::unidecode(s)
}

/// Calls `str::to_lowercase`, the locale-independent Unicode lower-casing of
/// std. The contract gives the result a name and says no more of it.
#[verifier::external_body]
fn lowercase(s: &str) -> (r: String)
    ensures
        r@ == lowercased(s@),
{
    s.to_lowercase()
}

/// Calls `String::push`, which appends one character.
#[verifier::external_body]
pub(crate) fn push_char(s: &mut String, c: char)
    ensures
        final(s)@ == old(s)@.push(c),
{
    s.push(c)
}

/// Folds a text: transliterated to ASCII, then lower-cased.
pub fn fold(s: &str) -> (r: String)
    ensures
        r@ == folded(s@),
{
    let ascii = transliterate(s);
    lowercase(ascii.as_str())
}

/// `is_space`, computed.
pub fn char_is_space(c: char) -> (r: bool)
    ensures
        r == is_space(c),
{
    let n: u32 = c as u32;
    (0x09 <= n && n <= 0x0d) || n == 0x20 || n == 0x85 || n == 0xa0 || n == 0x1680 || (0x2000 <= n
        && n <= 0x200a) || n == 0x2028 || n == 0x2029 || n == 0x202f || n == 0x205f || n == 0x3000
}

/// `is_lower_alnum`, computed.
pub fn char_is_lower_alnum(c: char) -> (r: bool)
    ensures
        r == is_lower_alnum(c),
{
    ('a' <= c && c <= 'z') || ('0' <= c && c <= '9')
}


proof fn lemma_trim_start(s: Seq<char>, a: int)
    requires
        0 <= a <= s.len(),
        forall|k: int| 0 <= k < a ==> is_space(#[trigger] s[k]),
        a == s.len() || !is_space(s[a]),
    ensures
        trim_start(s) == s.subrange(a, s.len() as int),
    decreases a,
{
    if a == 0 {
        assert(s.subrange(0, s.len() as int) =~= s);
    } else {
        let t = s.drop_first();
        assert(is_space(s[0]));
        assert forall|k: int| 0 <= k < a - 1 implies is_space(#[trigger] t[k]) by {
            assert(t[k] == s[k + 1]);
        }
        lemma_trim_start(t, a - 1);
        assert(t.subrange(a - 1, t.len() as int) =~= s.subrange(a, s.len() as int));
    }
}

proof fn lemma_trim_end(s: Seq<char>, b: int)
    requires
        0 <= b <= s.len(),
        forall|k: int| b <= k < s.len() ==> is_space(#[trigger] s[k]),
        b == 0 || !is_space(s[b - 1]),
    ensures
        trim_end(s) == s.subrange(0, b),
    decreases s.len() - b,
{
    if b == s.len() {
        assert(s.subrange(0, b) =~= s);
    } else {
        let t = s.drop_last();
        assert(is_space(s[s.len() - 1]));
        assert forall|k: int| b <= k < t.len() implies is_space(#[trigger] t[k]) by {
            assert(t[k] == s[k]);
        }
        lemma_trim_end(t, b);
        assert(t.subrange(0, b) =~= s.subrange(0, b));
    }
}

proof fn lemma_trim_start_keeps(s: Seq<char>)
    requires
        forall|k: int| 0 <= k < s.len() ==> is_name_char(#[trigger] s[k]),
    ensures
        forall|k: int| 0 <= k < trim_start(s).len() ==> is_name_char(#[trigger] trim_start(s)[k]),
    decreases s.len(),
{
    if s.len() > 0 && is_space(s[0]) {
        let t = s.drop_first();
        assert forall|k: int| 0 <= k < t.len() implies is_name_char(#[trigger] t[k]) by {
            assert(t[k] == s[k + 1]);
        }
        lemma_trim_start_keeps(t);
        assert(trim_start(s) == trim_start(t));
    } else {
        assert(trim_start(s) == s);
    }
}

proof fn lemma_trim_end_keeps(s: Seq<char>)
    requires
        forall|k: int| 0 <= k < s.len() ==> is_name_char(#[trigger] s[k]),
    ensures
        forall|k: int| 0 <= k < trim_end(s).len() ==> is_name_char(#[trigger] trim_end(s)[k]),
    decreases s.len(),
{
    if s.len() > 0 && is_space(s.last()) {
        let t = s.drop_last();
        assert forall|k: int| 0 <= k < t.len() implies is_name_char(#[trigger] t[k]) by {
            assert(t[k] == s[k]);
        }
        lemma_trim_end_keeps(t);
        assert(trim_end(s) == trim_end(t));
    } else {
        assert(trim_end(s) == s);
    }
}

proof fn lemma_hyphenated_chars(s: Seq<char>)
    requires
        forall|k: int| 0 <= k < s.len() ==> is_name_char(#[trigger] s[k]),
    ensures
        forall|k: int| 0 <= k < hyphenated(s).len() ==> is_id_char(#[trigger] hyphenated(s)[k]),
        s.len() > 0 ==> hyphenated(s).len() > 0,
    decreases s.len(),
{
    if s.len() > 0 {
        let t = s.drop_last();
        assert forall|k: int| 0 <= k < t.len() implies is_name_char(#[trigger] t[k]) by {
            assert(t[k] == s[k]);
        }
        lemma_hyphenated_chars(t);
        let c = s.last();
        assert(is_name_char(s[s.len() - 1]));
        let h = hyphenated(s);
        let ht = hyphenated(t);
        if !is_space(c) {
            assert(h == ht.push(c));
            assert(is_id_char(c));
        } else if s.len() >= 2 && is_space(s[s.len() - 2]) {
            assert(h == ht);
        } else {
            assert(h == ht.push('-'));
        }
        assert forall|k: int| 0 <= k < h.len() implies is_id_char(#[trigger] h[k]) by {
            if k < ht.len() {
                assert(h[k] == ht[k]);
            }
        }
    } else {
        assert(hyphenated(s).len() == 0);
    }
}

/// A sanitized team name is never empty and holds nothing but lower-case
/// ASCII letters, ASCII digits and hyphens.
pub proof fn lemma_sanitized_name_chars(s: Seq<char>)
    ensures
        sanitized_name(s) matches Some(n) ==> n.len() > 0 && forall|k: int|
            0 <= k < n.len() ==> is_id_char(#[trigger] n[k]),
{
    let kept = name_chars(folded(s));
    assert forall|k: int| 0 <= k < kept.len() implies is_name_char(#[trigger] kept[k]) by {
        folded(s).lemma_filter_pred(|c: char| is_name_char(c), k);
    }
    lemma_trim_start_keeps(kept);
    lemma_trim_end_keeps(trim_start(kept));
    lemma_hyphenated_chars(name_core(s));
}

/// The characters of `s` that satisfy `is_name_char`, in order.
fn keep_name_chars(s: &str) -> (r: Vec<char>)
    ensures
        r@ == name_chars(s@),
{
    let n = s.unicode_len();
    let mut r: Vec<char> = Vec::new();
    let mut i: usize = 0;
    while i < n
        invariant
            n == s@.len(),
            i <= n,
            r@ == name_chars(s@.take(i as int)),
        decreases n - i,
    {
        let c = s.get_char(i);
        proof {
            assert(s@.take(i + 1) =~= s@.take(i as int).push(c));
            s@.take(i as int).lemma_filter_push(c, |c: char| is_name_char(c));
        }
        if char_is_space(c) || char_is_lower_alnum(c) || c == '-' {
            r.push(c);
        }
        i += 1;
    }
    proof {
        assert(s@.take(n as int) =~= s@);
    }
    r
}

/// Cleans a team name: folded, stripped of every character but white space,
/// lower-case letters, digits and hyphens, trimmed, and each run of white
/// space turned into one hyphen. A name of which nothing is left is refused.
pub fn sanitize_name(name: &str) -> (r: Result<String, GameError>)
    ensures
        match sanitized_name(name@) {
            Some(n) => r is Ok && r->Ok_0@ == n,
            None => r == Err::<String, GameError>(GameError::InvalidName),
        },
        r is Ok ==> r->Ok_0@.len() > 0 && forall|k: int|
            0 <= k < r->Ok_0@.len() ==> is_id_char(#[trigger] r->Ok_0@[k]),
{
    let folded_name = fold(name);
    let kept = keep_name_chars(folded_name.as_str());
    let n = kept.len();
    let mut a: usize = 0;
    while a < n && char_is_space(kept[a])
        invariant
            n == kept@.len(),
            a <= n,
            forall|k: int| 0 <= k < a ==> is_space(#[trigger] kept@[k]),
        decreases n - a,
    {
        a += 1;
    }
    let mut b: usize = n;
    while b > a && char_is_space(kept[b - 1])
        invariant
            n == kept@.len(),
            a <= b <= n,
            forall|k: int| b <= k < n ==> is_space(#[trigger] kept@[k]),
        decreases b,
    {
        b -= 1;
    }
    let ghost tail = kept@.subrange(a as int, n as int);
    let ghost core = kept@.subrange(a as int, b as int);
    proof {
        lemma_trim_start(kept@, a as int);
        assert forall|k: int| b - a <= k < tail.len() implies is_space(#[trigger] tail[k]) by {
            assert(tail[k] == kept@[k + a]);
        }
        lemma_trim_end(tail, b - a);
        assert(tail.subrange(0, b - a) =~= core);
        assert(name_core(name@) == core);
        lemma_sanitized_name_chars(name@);
    }
    if a == b {
        return Err(GameError::InvalidName);
    }
    let mut out = String::new();
    let mut i: usize = a;
    while i < b
        invariant
            n == kept@.len(),
            a <= i <= b <= n,
            core == kept@.subrange(a as int, b as int),
            out@ == hyphenated(core.take(i - a)),
        decreases b - i,
    {
        let c = kept[i];
        proof {
            let cur = core.take(i - a + 1);
            assert(cur.drop_last() =~= core.take(i - a));
            assert(cur.last() == c);
            if i > a {
                assert(cur[cur.len() - 2] == kept@[i - 1]);
            }
        }
        if !char_is_space(c) {
            push_char(&mut out, c);
        } else if i > a && char_is_space(kept[i - 1]) {
        } else {
            push_char(&mut out, '-');
        }
        i += 1;
    }
    proof {
        assert(core.take(b - a) =~= core);
    }
    Ok(out)
}

/// Cleans an answer or a guess: folded, then stripped of every character
/// but lower-case letters and digits.
pub fn sanitize_answer(answer: &str) -> (r: String)
    ensures
        r@ == sanitized_answer(answer@),
{
    let folded_answer = fold(answer);
    let s = folded_answer.as_str();
    let n = s.unicode_len();
    let mut r = String::new();
    let mut i: usize = 0;
    while i < n
        invariant
            n == s@.len(),
            i <= n,
            r@ == alnum_chars(s@.take(i as int)),
        decreases n - i,
    {
        let c = s.get_char(i);
        proof {
            assert(s@.take(i + 1) =~= s@.take(i as int).push(c));
            s@.take(i as int).lemma_filter_push(c, |c: char| is_lower_alnum(c));
        }
        if char_is_lower_alnum(c) {
            push_char(&mut r, c);
        }
        i += 1;
    }
    proof {
        assert(s@.take(n as int) =~= s@);
    }
    r
}

} // verus!
