use vstd::prelude::*;

use crate::ids::{new_uuid, Id};

verus! {

/// Name of a quiz whose file gives none.
pub const DEFAULT_QUIZ_NAME: &'static str = "Clihoot quiz";

/// Least and greatest number of choices a question may have.
pub const MIN_CHOICES: usize = 1;
pub const MAX_CHOICES: usize = 4;

/// Reading speed used for the estimate, as seconds per twenty words
/// (two hundred words a minute).
pub const SECONDS_PER_20_WORDS: usize = 6;

/// Default for the flags of a question set that its file does not carry.
pub fn falsy() -> (r: bool)
    ensures
        !r,
{
    false
}

/// Default quiz name of a question set.
pub fn random_quiz_name() -> (r: String)
    ensures
        r@ == DEFAULT_QUIZ_NAME@,
{
    DEFAULT_QUIZ_NAME.to_string()
}

/// A snippet of source code shown under a question.
#[derive(Debug)]
pub struct CodeBlock {
    pub language: String,
    pub code: String,
}

pub struct CodeBlockView {
    pub language: Seq<char>,
    pub code: Seq<char>,
}

impl View for CodeBlock {
    type V = CodeBlockView;

    open spec fn view(&self) -> CodeBlockView {
        CodeBlockView { language: self.language@, code: self.code@ }
    }
}

impl Clone for CodeBlock {
    fn clone(&self) -> (r: Self)
        ensures
            r@ == self@,
    {
        CodeBlock { language: self.language.clone(), code: self.code.clone() }
    }
}

/// One option of a question, with its correctness flag.
#[derive(Debug)]
pub struct Choice {
    pub id: Id,
    pub text: String,
    pub is_right: bool,
}

pub struct ChoiceView {
    pub id: Id,
    pub text: Seq<char>,
    pub is_right: bool,
}

impl View for Choice {
    type V = ChoiceView;

    open spec fn view(&self) -> ChoiceView {
        ChoiceView { id: self.id, text: self.text@, is_right: self.is_right }
    }
}

impl Clone for Choice {
    fn clone(&self) -> (r: Self)
        ensures
            r@ == self@,
    {
        Choice { id: self.id, text: self.text.clone(), is_right: self.is_right }
    }
}

impl Choice {
    /// A choice with a fresh identifier.
    pub fn new(text: String, is_right: bool) -> (r: Self)
        ensures
            (r.id >> 76u128) & 0xfu128 == 4u128,
            r.text@ == text@,
            r.is_right == is_right,
    {
        Choice { id: new_uuid(), text, is_right }
    }
}

/// One option of a question as players see it before the reveal.
#[derive(Debug)]
pub struct ChoiceCensored {
    pub id: Id,
    pub text: String,
}

pub struct ChoiceCensoredView {
    pub id: Id,
    pub text: Seq<char>,
}

impl View for ChoiceCensored {
    type V = ChoiceCensoredView;

    open spec fn view(&self) -> ChoiceCensoredView {
        ChoiceCensoredView { id: self.id, text: self.text@ }
    }
}

/// A quiz question.
#[derive(Debug)]
pub struct Question {
    pub text: String,
    pub code_block: Option<CodeBlock>,
    pub time_seconds: u32,
    pub choices: Vec<Choice>,
}

pub struct QuestionView {
    pub text: Seq<char>,
    pub code_block: Option<CodeBlockView>,
    pub time_seconds: u32,
    pub choices: Seq<ChoiceView>,
}

/// The views of a list of choices.
pub open spec fn choice_views(s: Seq<Choice>) -> Seq<ChoiceView> {
    s.map_values(|c: Choice| c@)
}

pub open spec fn code_view(c: Option<CodeBlock>) -> Option<CodeBlockView> {
    match c {
        Some(b) => Some(b@),
        None => None,
    }
}

impl View for Question {
    type V = QuestionView;

    open spec fn view(&self) -> QuestionView {
        QuestionView {
            text: self.text@,
            code_block: code_view(self.code_block),
            time_seconds: self.time_seconds,
            choices: choice_views(self.choices@),
        }
    }
}

/// A question as players see it while answering: no correctness flags.
#[derive(Debug)]
pub struct QuestionCensored {
    pub text: String,
    pub code_block: Option<CodeBlock>,
    pub time_seconds: u32,
    pub choices: Vec<ChoiceCensored>,
}

pub struct QuestionCensoredView {
    pub text: Seq<char>,
    pub code_block: Option<CodeBlockView>,
    pub time_seconds: u32,
    pub choices: Seq<ChoiceCensoredView>,
}

impl View for QuestionCensored {
    type V = QuestionCensoredView;

    open spec fn view(&self) -> QuestionCensoredView {
        QuestionCensoredView {
            text: self.text@,
            code_block: code_view(self.code_block),
            time_seconds: self.time_seconds,
            choices: self.choices@.map_values(|c: ChoiceCensored| c@),
        }
    }
}

/// The public view of a choice: its identifier and text.
pub open spec fn censor_choice(c: ChoiceView) -> ChoiceCensoredView {
    ChoiceCensoredView { id: c.id, text: c.text }
}

/// The public view of a question: everything but the correctness flags.
pub open spec fn censor(q: QuestionView) -> QuestionCensoredView {
    QuestionCensoredView {
        text: q.text,
        code_block: q.code_block,
        time_seconds: q.time_seconds,
        choices: q.choices.map_values(|c: ChoiceView| censor_choice(c)),
    }
}

/// The correctness flags of a question's choices, in order.
pub open spec fn right_flags(q: QuestionView) -> Seq<bool> {
    q.choices.map_values(|c: ChoiceView| c.is_right)
}

/// A censored question with the correctness flags put back.
pub open spec fn uncensor(c: QuestionCensoredView, flags: Seq<bool>) -> QuestionView {
    QuestionView {
        text: c.text,
        code_block: c.code_block,
        time_seconds: c.time_seconds,
        choices: Seq::new(
            c.choices.len(),
            |i: int| ChoiceView { id: c.choices[i].id, text: c.choices[i].text, is_right: flags[i] },
        ),
    }
}

/// Censoring a question keeps every choice's identifier and text, and
/// the flags that the full view carries are exactly what it drops:
/// putting them back gives the question again.
pub proof fn lemma_censor_round_trip(q: QuestionView)
    ensures
        censor(q).choices.len() == q.choices.len(),
        forall|i: int|
            0 <= i < q.choices.len() ==> #[trigger] censor(q).choices[i] == censor_choice(
                q.choices[i],
            ),
        uncensor(censor(q), right_flags(q)) == q,
{
    let u = uncensor(censor(q), right_flags(q));
    assert(u.choices =~= q.choices);
}

/// Two questions alike but for their correctness flags look the same
/// once censored.
pub proof fn lemma_censor_ignores_flags(q: QuestionView, q2: QuestionView)
    requires
        q.text == q2.text,
        q.code_block == q2.code_block,
        q.time_seconds == q2.time_seconds,
        q.choices.len() == q2.choices.len(),
        forall|i: int|
            0 <= i < q.choices.len() ==> (#[trigger] q.choices[i]).id == q2.choices[i].id
                && q.choices[i].text == q2.choices[i].text,
    ensures
        censor(q) == censor(q2),
{
    assert(censor(q).choices =~= censor(q2).choices);
}

/// No two choices share an id.
pub open spec fn ids_distinct(choices: Seq<ChoiceView>) -> bool {
    forall|a: int, b: int|
        0 <= a < b < choices.len() ==> (#[trigger] choices[a]).id != (#[trigger] choices[b]).id
}

/// The rule that the question bank enforces on a question's choices:
/// one to four of them, at least one right, each with its own id.
pub open spec fn choices_valid(choices: Seq<ChoiceView>) -> bool {
    &&& MIN_CHOICES <= choices.len() <= MAX_CHOICES
    &&& exists|i: int| 0 <= i < choices.len() && #[trigger] choices[i].is_right
    &&& ids_distinct(choices)
}

/// Why a question's choices were refused.
#[derive(Debug, PartialEq, Eq, Structural)]
pub enum ChoicesError {
    /// Not between one and four choices; holds how many there were.
    InvalidLength(usize),
    /// No choice is marked right.
    NoRightChoice,
    /// Two choices share an id.
    DuplicateId,
}

/// What checking the rule on these choices gives: the count is checked
/// first, then that one is right, then that the ids differ.
pub open spec fn choices_check(choices: Seq<ChoiceView>) -> Result<(), ChoicesError> {
    if !(MIN_CHOICES <= choices.len() <= MAX_CHOICES) {
        Err(ChoicesError::InvalidLength(choices.len() as usize))
    } else if forall|i: int| 0 <= i < choices.len() ==> !(#[trigger] choices[i]).is_right {
        Err(ChoicesError::NoRightChoice)
    } else if !ids_distinct(choices) {
        Err(ChoicesError::DuplicateId)
    } else {
        Ok(())
    }
}

/// Checks the rule on a question's choices.
pub fn validate_choices(choices: &Vec<Choice>) -> (r: Result<(), ChoicesError>)
    ensures
        r == choices_check(choice_views(choices@)),
        r is Ok <==> choices_valid(choice_views(choices@)),
{
    let ghost views = choice_views(choices@);
    if choices.len() < MIN_CHOICES || choices.len() > MAX_CHOICES {
        return Err(ChoicesError::InvalidLength(choices.len()));
    }
    let mut found = false;
    let mut i: usize = 0;
    while i < choices.len()
        invariant
            i <= choices.len(),
            views == choice_views(choices@),
            !found ==> forall|k: int| 0 <= k < i ==> !(#[trigger] views[k]).is_right,
            found ==> exists|k: int| 0 <= k < choices.len() && #[trigger] views[k].is_right,
        decreases choices.len() - i,
    {
        if choices[i].is_right {
            assert(views[i as int].is_right);
            found = true;
        }
        i += 1;
    }
    if !found {
        return Err(ChoicesError::NoRightChoice);
    }
    let mut a: usize = 0;
    while a < choices.len()
        invariant
            a <= choices.len(),
            views == choice_views(choices@),
            MIN_CHOICES <= choices.len() <= MAX_CHOICES,
            exists|k: int| 0 <= k < choices.len() && #[trigger] views[k].is_right,
            forall|x: int, y: int| 0 <= x < a && x < y < views.len() ==> (#[trigger] views[x]).id != (#[trigger] views[y]).id,
        decreases choices.len() - a,
    {
        let mut b: usize = a + 1;
        while b < choices.len()
            invariant
                a < choices.len(),
                a < b <= choices.len(),
                views == choice_views(choices@),
                MIN_CHOICES <= choices.len() <= MAX_CHOICES,
                exists|k: int| 0 <= k < choices.len() && #[trigger] views[k].is_right,
                forall|x: int, y: int| 0 <= x < a && x < y < views.len() ==> (#[trigger] views[x]).id != (#[trigger] views[y]).id,
                forall|y: int| a < y < b ==> views[a as int].id != (#[trigger] views[y]).id,
            decreases choices.len() - b,
        {
            if choices[a].id == choices[b].id {
                assert(views[a as int].id == views[b as int].id);
                return Err(ChoicesError::DuplicateId);
            }
            b += 1;
        }
        a += 1;
    }
    Ok(())
}

/// Unicode white space, the characters that separate words.
pub open spec fn is_space(c: char) -> bool {
    ||| '\t' <= c <= '\r'
    ||| c == ' '
    ||| c == '\u{85}'
    ||| c == '\u{a0}'
    ||| c == '\u{1680}'
    ||| '\u{2000}' <= c <= '\u{200a}'
    ||| c == '\u{2028}'
    ||| c == '\u{2029}'
    ||| c == '\u{202f}'
    ||| c == '\u{205f}'
    ||| c == '\u{3000}'
}

pub fn is_space_char(c: char) -> (r: bool)
    ensures
        r == is_space(c),
{
    ('\t' <= c && c <= '\r') || c == ' ' || c == '\u{85}' || c == '\u{a0}' || c == '\u{1680}'
        || ('\u{2000}' <= c && c <= '\u{200a}') || c == '\u{2028}' || c == '\u{2029}' || c
        == '\u{202f}' || c == '\u{205f}' || c == '\u{3000}'
}

/// Does a word start at position `i` of `s`?
pub open spec fn starts_word(s: Seq<char>, i: int) -> bool {
    !is_space(s[i]) && (i == 0 || is_space(s[i - 1]))
}

/// The number of words of `s`: maximal runs of characters that are not
/// white space.
pub open spec fn word_count(s: Seq<char>) -> nat
    decreases s.len(),
{
    if s.len() == 0 {
        0
    } else {
        word_count(s.drop_last()) + if starts_word(s, s.len() - 1) {
            1nat
        } else {
            0nat
        }
    }
}

proof fn lemma_word_count_prefix(s: Seq<char>, i: int)
    requires
        0 <= i < s.len(),
    ensures
        word_count(s.subrange(0, i + 1)) == word_count(s.subrange(0, i)) + if starts_word(s, i) {
            1nat
        } else {
            0nat
        },
        word_count(s.subrange(0, i + 1)) <= i + 1,
    decreases i,
{
    let t = s.subrange(0, i + 1);
    assert(t.drop_last() =~= s.subrange(0, i));
    assert(starts_word(t, i) == starts_word(s, i));
    if i > 0 {
        lemma_word_count_prefix(s, i - 1);
    } else {
        assert(s.subrange(0, 0).len() == 0);
    }
}

/// Counts the words of `s`.
pub fn count_words(s: &str) -> (r: usize)
    ensures
        r == word_count(s@),
{
    let n = s.unicode_len();
    let mut i: usize = 0;
    let mut count: usize = 0;
    let mut prev_space = true;
    assert(s@.subrange(0, 0).len() == 0);
    while i < n
        invariant
            n == s@.len(),
            i <= n,
            count == word_count(s@.subrange(0, i as int)),
            i > 0 ==> prev_space == is_space(s@[i - 1]),
            i == 0 ==> prev_space,
        decreases n - i,
    {
        let c = s.get_char(i);
        let space = is_space_char(c);
        proof {
            lemma_word_count_prefix(s@, i as int);
        }
        if !space && prev_space {
            count += 1;
        }
        prev_space = space;
        i += 1;
    }
    assert(s@.subrange(0, n as int) =~= s@);
    count
}

/// The reading time, in whole seconds, of a text of `words` words: six
/// seconds per twenty words, rounded down, and never under one second.
pub open spec fn reading_time(words: nat) -> nat {
    let secs = (words * SECONDS_PER_20_WORDS / 20) as nat;
    if secs == 0 {
        1
    } else {
        secs
    }
}

/// The words a player reads before the choices show: the question's
/// text and its code.
pub open spec fn question_words(q: QuestionView) -> nat {
    word_count(q.text) + match q.code_block {
        Some(b) => word_count(b.code),
        None => 0,
    }
}

impl Question {
    /// How long, in seconds, the choices stay hidden while players read.
    pub fn get_reading_time_estimate(&self) -> (r: usize)
        ensures
            r == reading_time(question_words(self@)),
    {
        let text_words = count_words(self.text.as_str());
        let code_words = match &self.code_block {
            Some(code) => count_words(code.code.as_str()),
            None => 0,
        };
        let words: u128 = text_words as u128 + code_words as u128;
        let estimate_secs: u128 = words * (SECONDS_PER_20_WORDS as u128) / 20;
        if estimate_secs == 0 {
            return 1;
        }
        estimate_secs as usize
    }

    /// The view of this question that players get while answering.
    pub fn censored(&self) -> (r: QuestionCensored)
        ensures
            r@ == censor(self@),
    {
        let mut choices: Vec<ChoiceCensored> = Vec::new();
        let mut i: usize = 0;
        while i < self.choices.len()
            invariant
                i <= self.choices.len(),
                choices@.len() == i,
                forall|k: int|
                    0 <= k < i ==> (#[trigger] choices@[k])@ == censor_choice(self.choices@[k]@),
            decreases self.choices.len() - i,
        {
            let c = &self.choices[i];
            choices.push(ChoiceCensored { id: c.id, text: c.text.clone() });
            i += 1;
        }
        let code_block = match &self.code_block {
            Some(b) => Some(b.clone()),
            None => None,
        };
        let r = QuestionCensored {
            text: self.text.clone(),
            code_block,
            time_seconds: self.time_seconds,
            choices,
        };
        assert(r@.choices =~= censor(self@).choices);
        r
    }

    /// Checks the rule of the question bank on this question's choices.
    pub fn validate(&self) -> (r: Result<(), ChoicesError>)
        ensures
            r == choices_check(self@.choices),
            r is Ok <==> choices_valid(self@.choices),
    {
        validate_choices(&self.choices)
    }
}

impl Clone for Question {
    fn clone(&self) -> (r: Self)
        ensures
            r@ == self@,
    {
        let mut choices: Vec<Choice> = Vec::new();
        let mut i: usize = 0;
        while i < self.choices.len()
            invariant
                i <= self.choices.len(),
                choices@.len() == i,
                forall|k: int| 0 <= k < i ==> (#[trigger] choices@[k])@ == self.choices@[k]@,
            decreases self.choices.len() - i,
        {
            choices.push(self.choices[i].clone());
            i += 1;
        }
        let code_block = match &self.code_block {
            Some(b) => Some(b.clone()),
            None => None,
        };
        let r = Question {
            text: self.text.clone(),
            code_block,
            time_seconds: self.time_seconds,
            choices,
        };
        assert(r@.choices =~= self@.choices);
        r
    }
}

impl vstd::std_specs::convert::FromSpecImpl<Question> for QuestionCensored {
    open spec fn obeys_from_spec() -> bool {
        false
    }

    open spec fn from_spec(q: Question) -> QuestionCensored {
        arbitrary()
    }
}

impl From<Question> for QuestionCensored {
    fn from(q: Question) -> (r: QuestionCensored)
        ensures
            r@ == censor(q@),
    {
        q.censored()
    }
}

/// An ordered quiz, loaded once and never changed.
#[derive(Debug)]
pub struct QuestionSet {
    pub questions: Vec<Question>,
    pub randomize_answers: bool,
    pub randomize_questions: bool,
    pub quiz_name: String,
}

impl QuestionSet {
    /// A question set with the default name and flags.
    pub fn new(questions: Vec<Question>) -> (r: Self)
        ensures
            r.questions@ == questions@,
            !r.randomize_answers,
            !r.randomize_questions,
            r.quiz_name@ == DEFAULT_QUIZ_NAME@,
    {
        QuestionSet {
            questions,
            randomize_answers: falsy(),
            randomize_questions: falsy(),
            quiz_name: random_quiz_name(),
        }
    }

    /// Checks every question of the set; the error names the first
    /// question that breaks the rule.
    pub fn validate(&self) -> (r: Result<(), (usize, ChoicesError)>)
        ensures
            r is Ok <==> forall|i: int|
                0 <= i < self.questions.len() ==> choices_valid(
                    (#[trigger] self.questions@[i])@.choices,
                ),
            r matches Err((i, e)) ==> i < self.questions.len() && Err::<(), ChoicesError>(e)
                == choices_check(self.questions@[i as int]@.choices) && forall|k: int|
                0 <= k < i ==> choices_valid((#[trigger] self.questions@[k])@.choices),
    {
        let mut i: usize = 0;
        while i < self.questions.len()
            invariant
                i <= self.questions.len(),
                forall|k: int|
                    0 <= k < i ==> choices_valid((#[trigger] self.questions@[k])@.choices),
            decreases self.questions.len() - i,
        {
            match self.questions[i].validate() {
                Ok(()) => {},
                Err(e) => {
                    return Err((i, e));
                },
            }
            i += 1;
        }
        Ok(())
    }
}

} // verus!
