use vstd::prelude::*;
use vstd::string::*;

verus! {

/// How far the fetching of a match's media has come.
#[derive(Clone, Copy, Debug, PartialEq, Eq, Structural)]
pub enum PreloadState {
    InProgress,
    Success,
    Failure,
}

/// Where the media of a url were put, and the second at which to start them.
#[derive(Clone, Debug)]
pub struct CacheEntry {
    pub path: String,
    pub start_at: u64,
}

/// Whether a video id starts behind place `i` of the url: `v=` stands
/// there, followed by a character that is not `&`.
pub open spec fn id_starts_at(s: Seq<char>, i: int) -> bool {
    0 <= i && i + 2 < s.len() && s[i] == 'v' && s[i + 1] == '=' && s[i + 2] != '&'
}

/// The first place from `from` on at which `&` stands, or the end of the url.
pub open spec fn id_end(s: Seq<char>, from: int) -> int
    decreases s.len() - from,
{
    if from < 0 || from >= s.len() || s[from] == '&' {
        from
    } else {
        id_end(s, from + 1)
    }
}

/// Whether `id` is the video id of the url: what stands between the first
/// `v=` that an id follows and the next `&`.
pub open spec fn is_video_id(s: Seq<char>, id: Option<Seq<char>>) -> bool {
    match id {
        Some(text) => exists|i: int|
            #[trigger] id_starts_at(s, i) && (forall|j: int| 0 <= j < i ==> !id_starts_at(s, j))
                && text == s.subrange(i + 2, id_end(s, i + 2)),
        None => forall|j: int| !id_starts_at(s, j),
    }
}

/// The video id of a url, if it has one.
pub fn video_id(url: &str) -> (r: Option<String>)
    ensures
        is_video_id(
            url@,
            match r {
                Some(id) => Some(id@),
                None => None,
            },
        ),
{
    let n = url.unicode_len();
    let mut i: usize = 0;
    while i < n
        invariant
            n == url@.len(),
            i <= n,
            forall|j: int| 0 <= j < i ==> !id_starts_at(url@, j),
        decreases n - i,
    {
        if n - i > 2 && url.get_char(i) == 'v' && url.get_char(i + 1) == '=' && url.get_char(i + 2)
            != '&' {
            let mut e: usize = i + 2;
            while e < n && url.get_char(e) != '&'
                invariant
                    n == url@.len(),
                    i + 2 <= e <= n,
                    id_end(url@, i + 2) == id_end(url@, e as int),
                decreases n - e,
            {
                e += 1;
            }
            assert(id_starts_at(url@, i as int));
            return Some(url.substring_char(i + 2, e).to_owned());
        }
        i += 1;
    }
    None
}


/// An ASCII digit.
pub open spec fn is_digit(c: char) -> bool {
    '0' <= c <= '9'
}

/// Whether a time stamp starts at place `i` of the url: `t=` stands there,
/// followed by a digit.
pub open spec fn stamp_starts_at(s: Seq<char>, i: int) -> bool {
    0 <= i && i + 2 < s.len() && s[i] == 't' && s[i + 1] == '=' && is_digit(s[i + 2])
}

/// The first place from `from` on at which no digit stands, or the end of
/// the url.
pub open spec fn digits_end(s: Seq<char>, from: int) -> int
    decreases s.len() - from,
{
    if from < 0 || from >= s.len() || !is_digit(s[from]) {
        from
    } else {
        digits_end(s, from + 1)
    }
}

/// The number that a run of digits writes.
pub open spec fn digits_value(s: Seq<char>) -> nat
    decreases s.len(),
{
    if s.len() == 0 {
        0
    } else {
        digits_value(s.drop_last()) * 10 + (s.last() as u32 - '0' as u32) as nat
    }
}

/// The number of the time stamp that starts at place `i`.
pub open spec fn stamp_at(s: Seq<char>, i: int) -> nat {
    digits_value(s.subrange(i + 2, digits_end(s, i + 2)))
}

/// Whether `t` is the start time of the url in seconds: the number of its
/// first time stamp that fits into 64 bits, and 0 where it has none.
pub open spec fn is_start_time(s: Seq<char>, t: u64) -> bool {
    ||| exists|i: int|
        #[trigger] stamp_starts_at(s, i) && stamp_at(s, i) == t && forall|j: int|
            0 <= j < i && stamp_starts_at(s, j) ==> #[trigger] stamp_at(s, j) > u64::MAX
    ||| t == 0 && forall|j: int| stamp_starts_at(s, j) ==> #[trigger] stamp_at(s, j) > u64::MAX
}

/// The second at which the media of a url are to start.
pub fn url_to_start_time(url: &str) -> (t: u64)
    ensures
        is_start_time(url@, t),
{
    let n = url.unicode_len();
    let mut i: usize = 0;
    while i < n
        invariant
            n == url@.len(),
            i <= n,
            forall|j: int| 0 <= j < i && stamp_starts_at(url@, j) ==> #[trigger] stamp_at(url@, j) > u64::MAX,
        decreases n - i,
    {
        let mut found = false;
        if n - i > 2 && url.get_char(i) == 't' && url.get_char(i + 1) == '=' {
            let first = url.get_char(i + 2);
            found = '0' <= first && first <= '9';
        }
        if found {
            let mut e: usize = i + 2;
            let mut value: u64 = 0;
            let mut overflow = false;
            assert(url@.subrange(i + 2, i + 2) =~= Seq::empty());
            loop
                invariant
                    n == url@.len(),
                    i + 2 <= e <= n,
                    stamp_starts_at(url@, i as int),
                    digits_end(url@, i + 2) == digits_end(url@, e as int),
                    !overflow ==> value == digits_value(url@.subrange(i + 2, e as int)),
                    overflow ==> digits_value(url@.subrange(i + 2, e as int)) > u64::MAX,
                ensures
                    digits_end(url@, i + 2) == e,
                decreases n - e,
            {
                if e >= n {
                    break ;
                }
                let c = url.get_char(e);
                if !('0' <= c && c <= '9') {
                    break ;
                }
                let d: u64 = (c as u32 - '0' as u32) as u64;
                proof {
                    let run = url@.subrange(i + 2, e + 1);
                    assert(run.drop_last() =~= url@.subrange(i + 2, e as int));
                    assert(run.last() == c);
                }
                if !overflow && value <= (u64::MAX - d) / 10 {
                    value = value * 10 + d;
                } else {
                    overflow = true;
                }
                e += 1;
            }
            if !overflow {
                assert(stamp_at(url@, i as int) == value);
                return value;
            }
        }
        i += 1;
    }
    0
}

} // verus!
