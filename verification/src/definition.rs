use vstd::prelude::*;
use vstd::string::*;
use crate::text::{push_char, sanitize_answer, sanitized_answer};

verus! {

/// One row of a question file, as it was read.
#[derive(Clone, Debug, PartialEq, Eq, Hash)]
pub struct RawQuestion {
    pub url: String,
    pub answer: String,
    pub acceptable_answers: Option<String>,
    pub category: String,
    pub score_value: u32,
    pub challenge: bool,
    pub duration_seconds: Option<u64>,
}

/// A question of the match. Two questions are the same question when they
/// agree on url, category and score value.
#[derive(Clone, Debug)]
pub struct Question {
    pub url: String,
    pub answer: String,
    /// The cleaned answers that count as correct, none of them empty.
    pub acceptable_answers: Vec<String>,
    pub category: String,
    pub score_value: u32,
    pub challenge: bool,
    /// The time limit of this question in milliseconds, where it has its own.
    pub duration: Option<u64>,
}

/// The texts held by a vector of strings.
pub open spec fn texts(v: Seq<String>) -> Seq<Seq<char>> {
    v.map_values(|s: String| s@)
}

/// The alternates of `s` that a `|` closes.
pub open spec fn closed_pieces(s: Seq<char>) -> Seq<Seq<char>>
    decreases s.len(),
{
    if s.len() == 0 {
        Seq::empty()
    } else if s.last() == '|' {
        closed_pieces(s.drop_last()).push(open_piece(s.drop_last()))
    } else {
        closed_pieces(s.drop_last())
    }
}

/// What follows the last `|` of `s`.
pub open spec fn open_piece(s: Seq<char>) -> Seq<char>
    decreases s.len(),
{
    if s.len() == 0 || s.last() == '|' {
        Seq::empty()
    } else {
        open_piece(s.drop_last()).push(s.last())
    }
}

/// `s` split at each `|`.
pub open spec fn pieces(s: Seq<char>) -> Seq<Seq<char>> {
    closed_pieces(s).push(open_piece(s))
}

/// The answer and its alternates, as written.
pub open spec fn alternates(answer: Seq<char>, extra: Option<Seq<char>>) -> Seq<Seq<char>> {
    match extra {
        Some(e) => seq![answer] + pieces(e),
        None => seq![answer],
    }
}

/// The cleaned forms of `alts`, without those that clean to nothing.
pub open spec fn accepted(alts: Seq<Seq<char>>) -> Seq<Seq<char>> {
    alts.map_values(|a: Seq<char>| sanitized_answer(a)).filter(|a: Seq<char>| a.len() > 0)
}

/// Whether the cleaned guess `g` matches one of the cleaned answers `acc`
/// exactly. Where there is no answer at all, only the empty guess matches.
pub open spec fn accepts(acc: Seq<Seq<char>>, g: Seq<char>) -> bool {
    if acc.len() == 0 {
        g.len() == 0
    } else {
        acc.contains(g)
    }
}

/// What identifies a question: url, category and score value.
pub struct QuestionKey {
    pub url: Seq<char>,
    pub category: Seq<char>,
    pub score_value: u32,
}

proof fn lemma_accepted_push(alts: Seq<Seq<char>>, a: Seq<char>)
    ensures
        accepted(alts.push(a)) == if sanitized_answer(a).len() > 0 {
            accepted(alts).push(sanitized_answer(a))
        } else {
            accepted(alts)
        },
{
    alts.lemma_push_map_commute(|a: Seq<char>| sanitized_answer(a), a);
    alts.map_values(|a: Seq<char>| sanitized_answer(a)).lemma_filter_push(
        sanitized_answer(a),
        |a: Seq<char>| a.len() > 0,
    );
}

/// Cleans `piece` and appends it to `acc` unless nothing is left of it.
fn push_answer(acc: &mut Vec<String>, piece: &str, Ghost(alts): Ghost<Seq<Seq<char>>>)
    requires
        texts(old(acc)@) == accepted(alts),
    ensures
        texts(final(acc)@) == accepted(alts.push(piece@)),
{
    let clean = sanitize_answer(piece);
    proof {
        lemma_accepted_push(alts, piece@);
    }
    if clean.as_str().unicode_len() > 0 {
        proof {
            acc@.lemma_push_map_commute(|s: String| s@, clean);
        }
        acc.push(clean);
    }
}

impl PartialEq for Question {
    fn eq(&self, other: &Self) -> (r: bool) {
        self.url == other.url && self.category == other.category && self.score_value
            == other.score_value
    }
}

impl Eq for Question {

}

impl vstd::std_specs::cmp::PartialEqSpecImpl for Question {
    open spec fn obeys_eq_spec() -> bool {
        true
    }

    open spec fn eq_spec(&self, other: &Self) -> bool {
        self.url@ == other.url@ && self.category@ == other.category@ && self.score_value
            == other.score_value
    }
}

impl Question {
    /// What identifies the question.
    pub open spec fn key(&self) -> QuestionKey {
        QuestionKey { url: self.url@, category: self.category@, score_value: self.score_value }
    }

    /// Builds the question of a row: its answers are the row's answer and
    /// alternates, cleaned; its time limit is the row's, in milliseconds.
    pub fn from_raw(raw: &RawQuestion) -> (q: Question)
        ensures
            q.url@ == raw.url@,
            q.answer@ == raw.answer@,
            q.category@ == raw.category@,
            q.score_value == raw.score_value,
            q.challenge == raw.challenge,
            q.duration == match raw.duration_seconds {
                Some(s) => Some(if s <= u64::MAX / 1000 { (s * 1000) as u64 } else { u64::MAX }),
                None => None,
            },
            texts(q.acceptable_answers@) == accepted(
                alternates(
                    raw.answer@,
                    match raw.acceptable_answers {
                        Some(e) => Some(e@),
                        None => None,
                    },
                ),
            ),
    {
        let mut acc: Vec<String> = Vec::new();
        assert(texts(acc@) =~= accepted(Seq::empty()));
        push_answer(&mut acc, raw.answer.as_str(), Ghost(Seq::empty()));
        assert(Seq::<Seq<char>>::empty().push(raw.answer@) =~= seq![raw.answer@]);
        if let Some(extra) = &raw.acceptable_answers {
            let s = extra.as_str();
            let n = s.unicode_len();
            let mut cur = String::new();
            let mut i: usize = 0;
            while i < n
                invariant
                    n == s@.len(),
                    i <= n,
                    cur@ == open_piece(s@.take(i as int)),
                    texts(acc@) == accepted(seq![raw.answer@] + closed_pieces(s@.take(i as int))),
                decreases n - i,
            {
                let c = s.get_char(i);
                let ghost before = s@.take(i as int);
                proof {
                    assert(s@.take(i + 1).drop_last() =~= before);
                    assert(s@.take(i + 1).last() == c);
                }
                if c == '|' {
                    proof {
                        assert((seq![raw.answer@] + closed_pieces(before)).push(cur@) =~= seq![
                            raw.answer@,
                        ] + closed_pieces(s@.take(i + 1)));
                    }
                    push_answer(
                        &mut acc,
                        cur.as_str(),
                        Ghost(seq![raw.answer@] + closed_pieces(before)),
                    );
                    cur = String::new();
                } else {
                    push_char(&mut cur, c);
                }
                i += 1;
            }
            proof {
                assert(s@.take(n as int) =~= s@);
                assert((seq![raw.answer@] + closed_pieces(s@)).push(cur@) =~= seq![raw.answer@]
                    + pieces(s@));
            }
            push_answer(&mut acc, cur.as_str(), Ghost(seq![raw.answer@] + closed_pieces(s@)));
        }
        let duration = match raw.duration_seconds {
            Some(s) => Some(if s <= u64::MAX / 1000 { s * 1000 } else { u64::MAX }),
            None => None,
        };
        Question {
            url: raw.url.clone(),
            answer: raw.answer.clone(),
            acceptable_answers: acc,
            category: raw.category.clone(),
            score_value: raw.score_value,
            challenge: raw.challenge,
            duration,
        }
    }

    /// Whether `guess`, once cleaned, is one of the acceptable answers.
    pub fn is_guess_correct(&self, guess: &str) -> (r: bool)
        ensures
            r == accepts(texts(self.acceptable_answers@), sanitized_answer(guess@)),
    {
        let clean = sanitize_answer(guess);
        let n = self.acceptable_answers.len();
        if n == 0 {
            return clean.as_str().unicode_len() == 0;
        }
        let ghost acc = texts(self.acceptable_answers@);
        assert(acc.len() == n);
        let mut i: usize = 0;
        while i < n
            invariant
                n == self.acceptable_answers@.len(),
                acc == texts(self.acceptable_answers@),
                acc.len() == n,
                clean@ == sanitized_answer(guess@),
                n > 0,
                i <= n,
                forall|k: int| 0 <= k < i ==> acc[k] != clean@,
            decreases n - i,
        {
            if self.acceptable_answers[i] == clean {
                assert(acc[i as int] == clean@);
                assert(acc.contains(clean@));
                return true;
            }
            i += 1;
        }
        false
    }

    /// Whether two questions are the same question.
    pub fn same(&self, other: &Question) -> (r: bool)
        ensures
            r == (self.key() == other.key()),
    {
        self.url == other.url && self.category == other.category && self.score_value
            == other.score_value
    }

    /// Whether `self` agrees with `other` in every field.
    pub open spec fn is_copy_of(&self, other: Question) -> bool {
        &&& self.url@ == other.url@
        &&& self.answer@ == other.answer@
        &&& self.category@ == other.category@
        &&& self.score_value == other.score_value
        &&& self.challenge == other.challenge
        &&& self.duration == other.duration
        &&& texts(self.acceptable_answers@) == texts(other.acceptable_answers@)
    }

    /// A second value of the same question, field for field.
    pub fn duplicate(&self) -> (q: Question)
        ensures
            q.is_copy_of(*self),
            q.key() == self.key(),
    {
        let mut acc: Vec<String> = Vec::new();
        let n = self.acceptable_answers.len();
        let mut i: usize = 0;
        while i < n
            invariant
                n == self.acceptable_answers@.len(),
                i <= n,
                acc@.len() == i,
                forall|k: int| 0 <= k < i ==> acc@[k]@ == self.acceptable_answers@[k]@,
            decreases n - i,
        {
            acc.push(self.acceptable_answers[i].clone());
            i += 1;
        }
        assert(texts(acc@) =~= texts(self.acceptable_answers@));
        Question {
            url: self.url.clone(),
            answer: self.answer.clone(),
            acceptable_answers: acc,
            category: self.category.clone(),
            score_value: self.score_value,
            challenge: self.challenge,
            duration: self.duration,
        }
    }
}


/// A pool of questions in which no two are the same question.
pub open spec fn pool_wf(pool: Seq<Question>) -> bool {
    forall|i: int, j: int|
        0 <= i < j < pool.len() ==> (#[trigger] pool[i]).key() != (#[trigger] pool[j]).key()
}

/// Whether the pool holds the question `key`.
pub open spec fn has_key(pool: Seq<Question>, key: QuestionKey) -> bool {
    exists|i: int| 0 <= i < pool.len() && (#[trigger] pool[i]).key() == key
}

/// Whether `i` is the first place of the pool that holds the question `key`.
pub open spec fn key_at(pool: Seq<Question>, key: QuestionKey, i: int) -> bool {
    &&& 0 <= i < pool.len()
    &&& pool[i].key() == key
    &&& forall|j: int| 0 <= j < i ==> (#[trigger] pool[j]).key() != key
}

/// Whether `i` is the place of the cheapest question of the pool, the first
/// of them where several cost the same.
pub open spec fn cheapest_at(pool: Seq<Question>, i: int) -> bool {
    &&& 0 <= i < pool.len()
    &&& forall|j: int| 0 <= j < pool.len() ==> pool[i].score_value <= (#[trigger] pool[j]).score_value
    &&& forall|j: int| 0 <= j < i ==> pool[i].score_value < (#[trigger] pool[j]).score_value
}

/// Whether `i` is the place from which `select_question` takes: that of
/// the voted question where the pool holds it, else that of the cheapest.
pub open spec fn selected_at(pool: Seq<Question>, winner: Option<QuestionKey>, i: int) -> bool {
    match winner {
        Some(key) => if has_key(pool, key) {
            key_at(pool, key, i)
        } else {
            cheapest_at(pool, i)
        },
        None => cheapest_at(pool, i),
    }
}

/// The key of the question voted for, where there is one.
pub open spec fn key_of(q: Option<Question>) -> Option<QuestionKey> {
    match q {
        Some(q) => Some(q.key()),
        None => None,
    }
}

/// The place of the first question keyed like `q`.
pub fn find_question(pool: &Vec<Question>, q: &Question) -> (r: Option<usize>)
    ensures
        r is Some == has_key(pool@, q.key()),
        r is Some ==> key_at(pool@, q.key(), r->Some_0 as int),
{
    let n = pool.len();
    let mut i: usize = 0;
    while i < n
        invariant
            n == pool@.len(),
            i <= n,
            forall|j: int| 0 <= j < i ==> (#[trigger] pool@[j]).key() != q.key(),
        decreases n - i,
    {
        if pool[i].same(q) {
            return Some(i);
        }
        i += 1;
    }
    None
}

/// The place of the cheapest question, the first of several.
pub fn find_cheapest(pool: &Vec<Question>) -> (r: Option<usize>)
    ensures
        r is Some == (pool@.len() > 0),
        r is Some ==> cheapest_at(pool@, r->Some_0 as int),
{
    let n = pool.len();
    if n == 0 {
        return None;
    }
    let mut w: usize = 0;
    let mut i: usize = 1;
    while i < n
        invariant
            n == pool@.len(),
            1 <= i <= n,
            w < i,
            forall|j: int| 0 <= j < i ==> pool@[w as int].score_value <= (#[trigger] pool@[j]).score_value,
            forall|j: int| 0 <= j < w ==> pool@[w as int].score_value < (#[trigger] pool@[j]).score_value,
        decreases n - i,
    {
        if pool[i].score_value < pool[w].score_value {
            w = i;
        }
        i += 1;
    }
    Some(w)
}

/// Takes the next question out of the pool: the one voted for where the
/// pool still holds it, else the cheapest. From an empty pool nothing is
/// taken. A question once taken is no longer in a well-formed pool.
pub fn select_question(pool: &mut Vec<Question>, vote_winner: Option<Question>) -> (r: Option<
    Question,
>)
    ensures
        r is Some == (old(pool)@.len() > 0),
        r is None ==> final(pool)@ == old(pool)@,
        r is Some ==> exists|i: int|
            #[trigger] selected_at(old(pool)@, key_of(vote_winner), i) && r->Some_0 == old(
                pool,
            )@[i] && final(pool)@ == old(pool)@.remove(i),
        pool_wf(old(pool)@) ==> pool_wf(final(pool)@),
        pool_wf(old(pool)@) && r is Some ==> !has_key(final(pool)@, r->Some_0.key()),
{
    let voted = match &vote_winner {
        Some(q) => find_question(pool, q),
        None => None,
    };
    let place = match voted {
        Some(i) => Some(i),
        None => find_cheapest(pool),
    };
    match place {
        Some(i) => {
            let q = pool.remove(i);
            proof {
                let before = old(pool)@;
                assert(selected_at(before, key_of(vote_winner), i as int));
                assert(pool@ == before.remove(i as int));
                if pool_wf(before) {
                    assert forall|a: int, b: int| 0 <= a < b < pool@.len() implies (
                    #[trigger] pool@[a]).key() != (#[trigger] pool@[b]).key() by {
                        let a0 = if a < i { a } else { a + 1 };
                        let b0 = if b < i { b } else { b + 1 };
                        assert(pool@[a] == before[a0] && pool@[b] == before[b0]);
                    }
                    assert forall|a: int| 0 <= a < pool@.len() implies (#[trigger] pool@[a]).key()
                        != q.key() by {
                        let a0 = if a < i { a } else { a + 1 };
                        assert(pool@[a] == before[a0]);
                        if a0 < i {
                            assert(before[a0].key() != before[i as int].key());
                        } else {
                            assert(before[i as int].key() != before[a0].key());
                        }
                    }
                }
            }
            Some(q)
        },
        None => None,
    }
}

/// The questions of a match.
#[derive(Debug)]
pub struct QuizDefinition {
    pub questions: Vec<Question>,
}

impl QuizDefinition {
    /// No question is there twice.
    pub open spec fn wf(&self) -> bool {
        pool_wf(self.questions@)
    }

    /// The questions of `rows`, in their order; of rows that are the same
    /// question, only the first counts.
    pub fn from_rows(rows: Vec<RawQuestion>) -> (r: QuizDefinition)
        ensures
            r.wf(),
            forall|k: int|
                0 <= k < rows@.len() ==> has_key(
                    r.questions@,
                    QuestionKey {
                        url: (#[trigger] rows@[k]).url@,
                        category: rows@[k].category@,
                        score_value: rows@[k].score_value,
                    },
                ),
            forall|m: int|
                0 <= m < r.questions@.len() ==> exists|k: int|
                    0 <= k < rows@.len() && (#[trigger] rows@[k]).url@ == (
                    #[trigger] r.questions@[m]).url@ && rows@[k].category@
                        == r.questions@[m].category@ && rows@[k].score_value
                        == r.questions@[m].score_value,
    {
        let ghost all = rows@;
        let mut questions: Vec<Question> = Vec::new();
        let n = rows.len();
        let mut idx: usize = 0;
        while idx < n
            invariant
                n == rows@.len(),
                all == rows@,
                idx <= n,
                pool_wf(questions@),
                forall|k: int|
                    0 <= k < idx ==> has_key(
                        questions@,
                        QuestionKey {
                            url: (#[trigger] all[k]).url@,
                            category: all[k].category@,
                            score_value: all[k].score_value,
                        },
                    ),
                forall|m: int|
                    0 <= m < questions@.len() ==> exists|k: int|
                        0 <= k < all.len() && (#[trigger] all[k]).url@ == (
                        #[trigger] questions@[m]).url@ && all[k].category@
                            == questions@[m].category@ && all[k].score_value
                            == questions@[m].score_value,
            decreases n - idx,
        {
            let ghost before = questions@;
            let q = Question::from_raw(&rows[idx]);
            let ghost key = q.key();
            match find_question(&questions, &q) {
                None => {
                    questions.push(q);
                    proof {
                        assert forall|a: int, b: int| 0 <= a < b < questions@.len() implies (
                        #[trigger] questions@[a]).key() != (#[trigger] questions@[b]).key() by {
                            if b == before.len() {
                                assert(before[a].key() != q.key());
                            }
                        }
                        assert forall|k: int| 0 <= k < idx + 1 implies has_key(
                            questions@,
                            QuestionKey {
                                url: (#[trigger] all[k]).url@,
                                category: all[k].category@,
                                score_value: all[k].score_value,
                            },
                        ) by {
                            let key = QuestionKey {
                                url: all[k].url@,
                                category: all[k].category@,
                                score_value: all[k].score_value,
                            };
                            if k == idx {
                                assert(questions@[before.len() as int].key() == key);
                            } else {
                                let i = choose|i: int|
                                    0 <= i < before.len() && (#[trigger] before[i]).key() == key;
                                assert(questions@[i].key() == key);
                            }
                        }
                        assert forall|m: int| 0 <= m < questions@.len() implies exists|k: int|
                            0 <= k < all.len() && (#[trigger] all[k]).url@ == (
                            #[trigger] questions@[m]).url@ && all[k].category@
                                == questions@[m].category@ && all[k].score_value
                                == questions@[m].score_value by {
                            if m < before.len() {
                                assert(questions@[m] == before[m]);
                            } else {
                                assert(all[idx as int].url@ == questions@[m].url@);
                            }
                        }
                    }
                },
                Some(i) => {
                    assert(questions@[i as int].key() == key);
                },
            }
            idx += 1;
        }
        QuizDefinition { questions }
    }

    /// The questions, in their order.
    pub fn get_questions(&self) -> (r: &Vec<Question>)
        ensures
            r == &self.questions,
    {
        &self.questions
    }
}

} // verus!
