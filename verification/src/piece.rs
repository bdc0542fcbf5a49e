use std::cmp::Ordering;
use vstd::prelude::*;
use vstd::std_specs::cmp::PartialOrdSpecImpl;

verus! {

/// The size of a piece. Larger pieces cover smaller ones.
#[derive(Debug, Copy, Clone, PartialEq, Eq, Structural, Ord)]
pub enum Size {
    Small,
    Medium,
    Large,
}

impl Size {
    /// Position of the size in the order `Small < Medium < Large`.
    pub open spec fn rank(self) -> int {
        match self {
            Size::Small => 1,
            Size::Medium => 2,
            Size::Large => 3,
        }
    }

    /// The full name of the size.
    pub open spec fn text(self) -> Seq<char> {
        match self {
            Size::Small => "Small"@,
            Size::Medium => "Medium"@,
            Size::Large => "Large"@,
        }
    }

    /// The first letter of the name of the size.
    pub open spec fn abbrev_text(self) -> Seq<char> {
        self.text().take(1)
    }

    /// The full name of the size.
    pub fn full_name(&self) -> (name: &'static str)
        ensures
            name@ == self.text(),
            name.is_ascii(),
            name@.len() >= 1,
    {
        proof {
            reveal_strlit("Small");
            reveal_strlit("Medium");
            reveal_strlit("Large");
        }
        match self {
            Size::Small => "Small",
            Size::Medium => "Medium",
            Size::Large => "Large",
        }
    }

    /// The full name of the size, such as `Small`.
    pub fn to_string(&self) -> (text: String)
        ensures
            text@ == self.text(),
    {
        self.full_name().to_owned()
    }

    /// The first letter of the name of the size, such as `S`.
    pub fn abbrev(&self) -> (text: String)
        ensures
            text@ == self.abbrev_text(),
    {
        self.full_name().substring_ascii(0, 1).to_owned()
    }

    /// The first letters of the three sizes.
    pub proof fn lemma_abbrev(self)
        ensures
            self.abbrev_text() == match self {
                Size::Small => seq!['S'],
                Size::Medium => seq!['M'],
                Size::Large => seq!['L'],
            },
    {
        reveal_strlit("Small");
        reveal_strlit("Medium");
        reveal_strlit("Large");
        assert(self.abbrev_text() =~= match self {
            Size::Small => seq!['S'],
            Size::Medium => seq!['M'],
            Size::Large => seq!['L'],
        });
    }

    /// Position of the size in the order `Small < Medium < Large`.
    pub fn order(&self) -> (rank: u8)
        ensures
            rank == self.rank(),
    {
        match self {
            Size::Small => 1,
            Size::Medium => 2,
            Size::Large => 3,
        }
    }
}

impl PartialOrd for Size {
    fn partial_cmp(&self, other: &Size) -> (ordering: Option<Ordering>) {
        let mine: u8 = self.order();
        let theirs: u8 = other.order();
        if mine < theirs {
            Some(Ordering::Less)
        } else if mine == theirs {
            Some(Ordering::Equal)
        } else {
            Some(Ordering::Greater)
        }
    }
}

impl PartialOrdSpecImpl for Size {
    open spec fn obeys_partial_cmp_spec() -> bool {
        true
    }

    open spec fn partial_cmp_spec(&self, other: &Size) -> Option<Ordering> {
        if self.rank() < other.rank() {
            Some(Ordering::Less)
        } else if self.rank() == other.rank() {
            Some(Ordering::Equal)
        } else {
            Some(Ordering::Greater)
        }
    }
}

} // verus!
