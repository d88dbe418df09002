//! The discrete part of scheduling a review: the card's next status and its
//! lapse and review counters. The intervals, ease and memory parameters are
//! real-valued and computed by the caller.
use vstd::prelude::*;
use crate::types::{CardStatus, Rating};

verus! {

/// Status, lapse count and review count of a card after a review.
#[derive(Debug, Clone, Copy, PartialEq, Eq, Structural)]
pub struct ReviewCounts {
    pub status: CardStatus,
    pub lapses: u32,
    pub reviews_count: u32,
}

/// Whether a status belongs to the learning phase.
pub open spec fn is_learning_phase(s: CardStatus) -> bool {
    s == CardStatus::New || s == CardStatus::Learning
}

/// SM-2: in the learning phase, Good and Easy graduate to review and Again
/// and Hard stay learning; in the review phase, Again is a lapse into
/// relearning and anything else is review.
pub open spec fn sm2_counts_spec(status: CardStatus, lapses: u32, reviews_count: u32, rating: Rating) -> ReviewCounts {
    if is_learning_phase(status) {
        ReviewCounts {
            status: if rating == Rating::Good || rating == Rating::Easy {
                CardStatus::Review
            } else {
                CardStatus::Learning
            },
            lapses,
            reviews_count: (reviews_count + 1) as u32,
        }
    } else if rating == Rating::Again {
        ReviewCounts {
            status: CardStatus::Relearning,
            lapses: (lapses + 1) as u32,
            reviews_count: (reviews_count + 1) as u32,
        }
    } else {
        ReviewCounts { status: CardStatus::Review, lapses, reviews_count: (reviews_count + 1) as u32 }
    }
}

/// SM-2's status and counters after a review.
pub fn sm2_counts(status: CardStatus, lapses: u32, reviews_count: u32, rating: Rating) -> (r: ReviewCounts)
    requires
        reviews_count < u32::MAX,
        rating == Rating::Again && !is_learning_phase(status) ==> lapses < u32::MAX,
    ensures
        r == sm2_counts_spec(status, lapses, reviews_count, rating),
{
    match status {
        CardStatus::New | CardStatus::Learning => {
            let s = match rating {
                Rating::Good | Rating::Easy => CardStatus::Review,
                _ => CardStatus::Learning,
            };
            ReviewCounts { status: s, lapses, reviews_count: reviews_count + 1 }
        },
        _ => match rating {
            Rating::Again => ReviewCounts {
                status: CardStatus::Relearning,
                lapses: lapses + 1,
                reviews_count: reviews_count + 1,
            },
            _ => ReviewCounts { status: CardStatus::Review, lapses, reviews_count: reviews_count + 1 },
        },
    }
}

/// FSRS's next status: Again sends a new card to learning and a reviewed one
/// to relearning, and keeps learning and relearning cards where they are;
/// any other rating leads to review.
pub open spec fn fsrs_status_spec(current: CardStatus, rating: Rating) -> CardStatus {
    if rating == Rating::Again {
        match current {
            CardStatus::New | CardStatus::Learning => CardStatus::Learning,
            _ => CardStatus::Relearning,
        }
    } else {
        CardStatus::Review
    }
}

/// FSRS's next status for a card in status `current` rated `rating`.
pub fn determine_status(current: CardStatus, rating: Rating) -> (r: CardStatus)
    ensures
        r == fsrs_status_spec(current, rating),
{
    match (current, rating) {
        (CardStatus::New, Rating::Again) => CardStatus::Learning,
        (CardStatus::New, _) => CardStatus::Review,
        (CardStatus::Learning, Rating::Again) => CardStatus::Learning,
        (CardStatus::Learning, _) => CardStatus::Review,
        (CardStatus::Review, Rating::Again) => CardStatus::Relearning,
        (CardStatus::Review, _) => CardStatus::Review,
        (CardStatus::Relearning, Rating::Again) => CardStatus::Relearning,
        (CardStatus::Relearning, _) => CardStatus::Review,
    }
}

/// FSRS's status after a review: on a card's first review Again leads to
/// learning and any other rating to review; later reviews follow
/// [`fsrs_status_spec`].
pub open spec fn fsrs_next_status(status: CardStatus, first_review: bool, rating: Rating) -> CardStatus {
    if first_review {
        if rating == Rating::Again {
            CardStatus::Learning
        } else {
            CardStatus::Review
        }
    } else {
        fsrs_status_spec(status, rating)
    }
}

/// FSRS: the status follows [`fsrs_next_status`]; Again is a lapse except on
/// a card's first review.
pub open spec fn fsrs_counts_spec(
    status: CardStatus,
    lapses: u32,
    reviews_count: u32,
    first_review: bool,
    rating: Rating,
) -> ReviewCounts {
    ReviewCounts {
        status: fsrs_next_status(status, first_review, rating),
        lapses: if !first_review && rating == Rating::Again {
            (lapses + 1) as u32
        } else {
            lapses
        },
        reviews_count: (reviews_count + 1) as u32,
    }
}

/// FSRS's status and counters after a review. `first_review` holds when the
/// card has no memory state yet.
pub fn fsrs_counts(
    status: CardStatus,
    lapses: u32,
    reviews_count: u32,
    first_review: bool,
    rating: Rating,
) -> (r: ReviewCounts)
    requires
        reviews_count < u32::MAX,
        rating == Rating::Again && !first_review ==> lapses < u32::MAX,
    ensures
        r == fsrs_counts_spec(status, lapses, reviews_count, first_review, rating),
{
    let s = if first_review {
        match rating {
            Rating::Again => CardStatus::Learning,
            _ => CardStatus::Review,
        }
    } else {
        determine_status(status, rating)
    };
    let l = if !first_review && rating == Rating::Again {
        lapses + 1
    } else {
        lapses
    };
    ReviewCounts { status: s, lapses: l, reviews_count: reviews_count + 1 }
}

/// SM-2 adds one to the review count, and one to the lapse count exactly
/// when Again is given to a card past the learning phase; the lapse count
/// never goes down.
pub proof fn lemma_sm2_counters(status: CardStatus, lapses: u32, reviews_count: u32, rating: Rating)
    requires
        reviews_count < u32::MAX,
        rating == Rating::Again && !is_learning_phase(status) ==> lapses < u32::MAX,
    ensures
        sm2_counts_spec(status, lapses, reviews_count, rating).reviews_count == reviews_count + 1,
        sm2_counts_spec(status, lapses, reviews_count, rating).lapses == lapses + if rating
            == Rating::Again && !is_learning_phase(status) {
            1int
        } else {
            0int
        },
        sm2_counts_spec(status, lapses, reviews_count, rating).lapses >= lapses,
{
}

/// FSRS adds one to the review count, and one to the lapse count exactly
/// when Again is given on a review that is not the card's first; the lapse
/// count never goes down.
pub proof fn lemma_fsrs_counters(
    status: CardStatus,
    lapses: u32,
    reviews_count: u32,
    first_review: bool,
    rating: Rating,
)
    requires
        reviews_count < u32::MAX,
        rating == Rating::Again && !first_review ==> lapses < u32::MAX,
    ensures
        fsrs_counts_spec(status, lapses, reviews_count, first_review, rating).reviews_count
            == reviews_count + 1,
        fsrs_counts_spec(status, lapses, reviews_count, first_review, rating).lapses == lapses
            + if rating == Rating::Again && !first_review {
            1int
        } else {
            0int
        },
        fsrs_counts_spec(status, lapses, reviews_count, first_review, rating).lapses >= lapses,
{
}

/// The rating of a submitted review: its value on the four-point scale, with
/// anything outside 1..=4 taken as Good.
pub fn coerce_rating(value: i32) -> (r: Rating)
    ensures
        1 <= value <= 4 ==> r.spec_value() == value,
        !(1 <= value <= 4) ==> r == Rating::Good,
{
    if 1 <= value && value <= 4 {
        match Rating::from_value(value as u8) {
            Some(r) => r,
            None => Rating::Good,
        }
    } else {
        Rating::Good
    }
}

} // verus!
