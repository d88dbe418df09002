//! Domain types: card status, ratings, study settings enums and cards.
use vstd::prelude::*;

verus! {

/// Learning status of a card.
#[derive(Debug, Clone, Copy, PartialEq, Eq, Structural)]
pub enum CardStatus {
    New,
    Learning,
    Review,
    Relearning,
}

/// Grade given to a card after a review.
#[derive(Debug, Clone, Copy, PartialEq, Eq, Structural)]
pub enum Rating {
    Again,
    Hard,
    Good,
    Easy,
}

impl Rating {
    /// The numeric value of a rating on the four-point scale.
    pub open spec fn spec_value(self) -> u8 {
        match self {
            Rating::Again => 1,
            Rating::Hard => 2,
            Rating::Good => 3,
            Rating::Easy => 4,
        }
    }

    /// Convert to the four-point numeric value (1..=4).
    pub fn to_value(self) -> (r: u8)
        ensures
            r == self.spec_value(),
            1 <= r <= 4,
    {
        match self {
            Rating::Again => 1,
            Rating::Hard => 2,
            Rating::Good => 3,
            Rating::Easy => 4,
        }
    }

    /// Create from a four-point numeric value; `None` outside 1..=4.
    pub fn from_value(value: u8) -> (r: Option<Rating>)
        ensures
            r is Some <==> 1 <= value <= 4,
            r matches Some(x) ==> x.spec_value() == value,
    {
        match value {
            1 => Some(Rating::Again),
            2 => Some(Rating::Hard),
            3 => Some(Rating::Good),
            4 => Some(Rating::Easy),
            _ => None,
        }
    }

    /// Map a two-point answer (wrong / correct) onto the four-point scale.
    pub fn from_2point(correct: bool) -> (r: Rating)
        ensures
            r == (if correct { Rating::Good } else { Rating::Again }),
    {
        if correct {
            Rating::Good
        } else {
            Rating::Again
        }
    }
}

/// Scale on which the learner grades a review.
#[derive(Debug, Clone, Copy, PartialEq, Eq, Structural)]
pub enum RatingScale {
    FourPoint,
    TwoPoint,
}

/// How the answer is given during study.
#[derive(Debug, Clone, Copy, PartialEq, Eq, Structural)]
pub enum AnswerMode {
    Flip,
    Typed,
}

/// How a typed answer is compared with the expected one.
#[derive(Debug, Clone, Copy, PartialEq, Eq, Structural)]
pub enum MatchingMode {
    Exact,
    CaseInsensitive,
    Fuzzy,
}

/// Scheduling algorithm.
#[derive(Debug, Clone, Copy, PartialEq, Eq, Structural)]
pub enum Algorithm {
    Sm2,
    Fsrs,
}

/// The name under which an algorithm is stored in settings.
pub open spec fn algorithm_name(a: Algorithm) -> Seq<char> {
    match a {
        Algorithm::Sm2 => seq!['s', 'm', '2'],
        Algorithm::Fsrs => seq!['f', 's', 'r', 's'],
    }
}

impl Algorithm {
    /// The algorithm's name as a string.
    pub fn as_str(&self) -> (r: &'static str)
        ensures
            r@ == algorithm_name(*self),
    {
        proof {
            reveal_strlit("sm2");
            reveal_strlit("fsrs");
        }
        match self {
            Algorithm::Sm2 => "sm2",
            Algorithm::Fsrs => "fsrs",
        }
    }

    /// Parse an algorithm from its name; `None` for any other string.
    pub fn from_str(s: &str) -> (r: Option<Algorithm>)
        ensures
            r matches Some(a) ==> algorithm_name(a) == s@,
            r is None ==> s@ != algorithm_name(Algorithm::Sm2) && s@ != algorithm_name(
                Algorithm::Fsrs,
            ),
    {
        let v = crate::text::to_chars(s);
        let sm2 = ['s', 'm', '2'];
        let fsrs = ['f', 's', 'r', 's'];
        assert(sm2@ =~= algorithm_name(Algorithm::Sm2));
        assert(fsrs@ =~= algorithm_name(Algorithm::Fsrs));
        if crate::text::chars_eq(v.as_slice(), &sm2) {
            Some(Algorithm::Sm2)
        } else if crate::text::chars_eq(v.as_slice(), &fsrs) {
            Some(Algorithm::Fsrs)
        } else {
            None
        }
    }
}

/// A card read from a card file; it may not have an ID yet.
#[derive(Debug, Clone)]
pub struct RawCard {
    pub id: Option<i64>,
    pub question: String,
    pub answer: String,
    pub line_number: usize,
}

/// A deck with its card counts.
#[derive(Debug, Clone)]
pub struct Deck {
    pub path: String,
    pub name: String,
    pub card_count: usize,
    pub new_count: usize,
    pub due_count: usize,
}

/// The name under which a status is stored.
pub open spec fn status_name(s: CardStatus) -> Seq<char> {
    match s {
        CardStatus::New => seq!['n', 'e', 'w'],
        CardStatus::Learning => seq!['l', 'e', 'a', 'r', 'n', 'i', 'n', 'g'],
        CardStatus::Review => seq!['r', 'e', 'v', 'i', 'e', 'w'],
        CardStatus::Relearning => seq!['r', 'e', 'l', 'e', 'a', 'r', 'n', 'i', 'n', 'g'],
    }
}

/// The name under which a rating scale is stored.
pub open spec fn scale_name(s: RatingScale) -> Seq<char> {
    match s {
        RatingScale::FourPoint => seq!['4', 'p', 'o', 'i', 'n', 't'],
        RatingScale::TwoPoint => seq!['2', 'p', 'o', 'i', 'n', 't'],
    }
}

/// The name under which a matching mode is stored.
pub open spec fn mode_name(m: MatchingMode) -> Seq<char> {
    match m {
        MatchingMode::Exact => seq!['e', 'x', 'a', 'c', 't'],
        MatchingMode::CaseInsensitive => seq![
            'c', 'a', 's', 'e', '_', 'i', 'n', 's', 'e', 'n', 's', 'i', 't', 'i', 'v', 'e'
        ],
        MatchingMode::Fuzzy => seq!['f', 'u', 'z', 'z', 'y'],
    }
}

impl CardStatus {
    /// The stored name of the status.
    pub fn name(self) -> (r: &'static str)
        ensures
            r@ == status_name(self),
    {
        proof {
            reveal_strlit("new");
            reveal_strlit("learning");
            reveal_strlit("review");
            reveal_strlit("relearning");
        }
        match self {
            CardStatus::New => "new",
            CardStatus::Learning => "learning",
            CardStatus::Review => "review",
            CardStatus::Relearning => "relearning",
        }
    }

    /// The status with a stored name; any other name reads as new.
    pub fn from_name(s: &str) -> (r: CardStatus)
        ensures
            status_name(r) == s@ || (r == CardStatus::New && s@ != status_name(CardStatus::Learning)
                && s@ != status_name(CardStatus::Review) && s@ != status_name(CardStatus::Relearning)),
    {
        let v = crate::text::to_chars(s);
        let learning = ['l', 'e', 'a', 'r', 'n', 'i', 'n', 'g'];
        let review = ['r', 'e', 'v', 'i', 'e', 'w'];
        let relearning = ['r', 'e', 'l', 'e', 'a', 'r', 'n', 'i', 'n', 'g'];
        assert(learning@ =~= status_name(CardStatus::Learning));
        assert(review@ =~= status_name(CardStatus::Review));
        assert(relearning@ =~= status_name(CardStatus::Relearning));
        if crate::text::chars_eq(v.as_slice(), &learning) {
            CardStatus::Learning
        } else if crate::text::chars_eq(v.as_slice(), &review) {
            CardStatus::Review
        } else if crate::text::chars_eq(v.as_slice(), &relearning) {
            CardStatus::Relearning
        } else {
            CardStatus::New
        }
    }
}

impl RatingScale {
    /// The stored name of the scale.
    pub fn name(self) -> (r: &'static str)
        ensures
            r@ == scale_name(self),
    {
        proof {
            reveal_strlit("4point");
            reveal_strlit("2point");
        }
        match self {
            RatingScale::FourPoint => "4point",
            RatingScale::TwoPoint => "2point",
        }
    }

    /// The scale with a stored name; any other name reads as four-point.
    pub fn from_name(s: &str) -> (r: RatingScale)
        ensures
            r == (if s@ == scale_name(RatingScale::TwoPoint) {
                RatingScale::TwoPoint
            } else {
                RatingScale::FourPoint
            }),
    {
        let v = crate::text::to_chars(s);
        let two = ['2', 'p', 'o', 'i', 'n', 't'];
        assert(two@ =~= scale_name(RatingScale::TwoPoint));
        if crate::text::chars_eq(v.as_slice(), &two) {
            RatingScale::TwoPoint
        } else {
            RatingScale::FourPoint
        }
    }
}

impl MatchingMode {
    /// The stored name of the mode.
    pub fn name(self) -> (r: &'static str)
        ensures
            r@ == mode_name(self),
    {
        proof {
            reveal_strlit("exact");
            reveal_strlit("case_insensitive");
            reveal_strlit("fuzzy");
        }
        match self {
            MatchingMode::Exact => "exact",
            MatchingMode::CaseInsensitive => "case_insensitive",
            MatchingMode::Fuzzy => "fuzzy",
        }
    }

    /// The mode with a stored name; any other name reads as fuzzy.
    pub fn from_name(s: &str) -> (r: MatchingMode)
        ensures
            r == (if s@ == mode_name(MatchingMode::Exact) {
                MatchingMode::Exact
            } else if s@ == mode_name(MatchingMode::CaseInsensitive) {
                MatchingMode::CaseInsensitive
            } else {
                MatchingMode::Fuzzy
            }),
    {
        let v = crate::text::to_chars(s);
        let exact = ['e', 'x', 'a', 'c', 't'];
        let ci = ['c', 'a', 's', 'e', '_', 'i', 'n', 's', 'e', 'n', 's', 'i', 't', 'i', 'v', 'e'];
        assert(exact@ =~= mode_name(MatchingMode::Exact));
        assert(ci@ =~= mode_name(MatchingMode::CaseInsensitive));
        if crate::text::chars_eq(v.as_slice(), &exact) {
            MatchingMode::Exact
        } else if crate::text::chars_eq(v.as_slice(), &ci) {
            MatchingMode::CaseInsensitive
        } else {
            MatchingMode::Fuzzy
        }
    }
}

} // verus!
