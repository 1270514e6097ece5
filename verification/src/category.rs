//! Score-sheet categories and rule variants.
use crate::text::{ascii_bytes, bytes_eq, is_word, lacks, lemma_encode_ascii, lemma_literal_bytes, lemma_normalize_hyphen, lemma_normalize_plain, normalize_name, normalize_spec, spaceless};
use vstd::prelude::*;
use vstd::string::StringSliceAdditionalSpecFns;
use vstd::utf8::{encode_utf8, is_ascii_chars};

verus! {

/// The rule variant a game is played under.
#[derive(Debug, Clone, Copy, PartialEq, Eq, Hash, Structural)]
pub enum Ruleset {
    /// US Hasbro rules: an extra Yahtzee after a 50 forces the Joker order.
    HasbroStrict,
    /// BuddyBoardGames rules: any open category may always be chosen.
    BuddyBoardGames,
}

impl Default for Ruleset {
    fn default() -> (r: Self)
        ensures
            r == Ruleset::HasbroStrict,
    {
        Ruleset::HasbroStrict
    }
}

/// The rule variant that a normalised name denotes.
pub open spec fn ruleset_for_normalized(n: Seq<u8>) -> Option<Ruleset> {
    if is_word(n, "hasbro") || is_word(n, "hasbrostrict") || is_word(n, "strict") {
        Some(Ruleset::HasbroStrict)
    } else if is_word(n, "buddyboardgames") || is_word(n, "bbg") || is_word(n, "buddy") {
        Some(Ruleset::BuddyBoardGames)
    } else {
        None
    }
}

impl Ruleset {
    /// Reads a rule variant from a name, ignoring case and any character that
    /// is not an ASCII letter or digit.
    pub fn from_name(name: &str) -> (r: Option<Self>)
        ensures
            r == ruleset_for_normalized(normalize_spec(name.spec_bytes())),
    {
        let n = normalize_name(name.as_bytes());
        let n = n.as_slice();
        if bytes_eq(n, "hasbro".as_bytes()) || bytes_eq(n, "hasbrostrict".as_bytes()) || bytes_eq(
            n,
            "strict".as_bytes(),
        ) {
            Some(Ruleset::HasbroStrict)
        } else if bytes_eq(n, "buddyboardgames".as_bytes()) || bytes_eq(n, "bbg".as_bytes())
            || bytes_eq(n, "buddy".as_bytes()) {
            Some(Ruleset::BuddyBoardGames)
        } else {
            None
        }
    }

    /// The name under which the variant is printed.
    pub open spec fn name_spec(self) -> Seq<char> {
        match self {
            Ruleset::HasbroStrict => "hasbro"@,
            Ruleset::BuddyBoardGames => "buddyboardgames"@,
        }
    }

    /// The name under which the variant is printed.
    pub fn name(self) -> (r: &'static str)
        ensures
            r@ == self.name_spec(),
    {
        match self {
            Ruleset::HasbroStrict => "hasbro",
            Ruleset::BuddyBoardGames => "buddyboardgames",
        }
    }
}

/// One of the thirteen score-sheet categories.
#[derive(Debug, Clone, Copy, PartialEq, Eq, Hash, Structural)]
pub enum Category {
    Ones,
    Twos,
    Threes,
    Fours,
    Fives,
    Sixes,
    ThreeKind,
    FourKind,
    FullHouse,
    SmallStraight,
    LargeStraight,
    Yahtzee,
    Chance,
}

/// Number of categories on a score sheet.
pub const CATEGORY_COUNT: usize = 13;

/// The category at position `i` of the sheet order.
pub open spec fn category_at(i: int) -> Category {
    if i == 0 {
        Category::Ones
    } else if i == 1 {
        Category::Twos
    } else if i == 2 {
        Category::Threes
    } else if i == 3 {
        Category::Fours
    } else if i == 4 {
        Category::Fives
    } else if i == 5 {
        Category::Sixes
    } else if i == 6 {
        Category::ThreeKind
    } else if i == 7 {
        Category::FourKind
    } else if i == 8 {
        Category::FullHouse
    } else if i == 9 {
        Category::SmallStraight
    } else if i == 10 {
        Category::LargeStraight
    } else if i == 11 {
        Category::Yahtzee
    } else {
        Category::Chance
    }
}

/// The category that a normalised name denotes.
pub open spec fn category_for_normalized(n: Seq<u8>) -> Option<Category> {
    if is_word(n, "ones") || is_word(n, "one") || is_word(n, "aces") || is_word(n, "ace") {
        Some(Category::Ones)
    } else if is_word(n, "twos") || is_word(n, "two") {
        Some(Category::Twos)
    } else if is_word(n, "threes") || is_word(n, "three") {
        Some(Category::Threes)
    } else if is_word(n, "fours") || is_word(n, "four") {
        Some(Category::Fours)
    } else if is_word(n, "fives") || is_word(n, "five") {
        Some(Category::Fives)
    } else if is_word(n, "sixes") || is_word(n, "six") {
        Some(Category::Sixes)
    } else if is_word(n, "threekind") || is_word(n, "threeofakind") || is_word(n, "3kind")
        || is_word(n, "3ofakind") {
        Some(Category::ThreeKind)
    } else if is_word(n, "fourkind") || is_word(n, "fourofakind") || is_word(n, "4kind")
        || is_word(n, "4ofakind") {
        Some(Category::FourKind)
    } else if is_word(n, "fullhouse") {
        Some(Category::FullHouse)
    } else if is_word(n, "smallstraight") || is_word(n, "smstraight") {
        Some(Category::SmallStraight)
    } else if is_word(n, "largestraight") || is_word(n, "lgstraight") {
        Some(Category::LargeStraight)
    } else if is_word(n, "yahtzee") || is_word(n, "yatzy") {
        Some(Category::Yahtzee)
    } else if is_word(n, "chance") {
        Some(Category::Chance)
    } else {
        None
    }
}

impl Category {
    /// All categories in sheet order.
    pub const ALL: [Category; 13] = [
        Category::Ones,
        Category::Twos,
        Category::Threes,
        Category::Fours,
        Category::Fives,
        Category::Sixes,
        Category::ThreeKind,
        Category::FourKind,
        Category::FullHouse,
        Category::SmallStraight,
        Category::LargeStraight,
        Category::Yahtzee,
        Category::Chance,
    ];

    /// The upper-section categories in sheet order.
    pub const UPPER: [Category; 6] = [
        Category::Ones,
        Category::Twos,
        Category::Threes,
        Category::Fours,
        Category::Fives,
        Category::Sixes,
    ];

    /// The lower-section categories in sheet order.
    pub const LOWER: [Category; 7] = [
        Category::ThreeKind,
        Category::FourKind,
        Category::FullHouse,
        Category::SmallStraight,
        Category::LargeStraight,
        Category::Yahtzee,
        Category::Chance,
    ];

    /// Position of the category in the sheet order (0 to 12).
    pub open spec fn idx(self) -> int {
        match self {
            Category::Ones => 0,
            Category::Twos => 1,
            Category::Threes => 2,
            Category::Fours => 3,
            Category::Fives => 4,
            Category::Sixes => 5,
            Category::ThreeKind => 6,
            Category::FourKind => 7,
            Category::FullHouse => 8,
            Category::SmallStraight => 9,
            Category::LargeStraight => 10,
            Category::Yahtzee => 11,
            Category::Chance => 12,
        }
    }

    /// Upper-section categories: ones through sixes.
    pub open spec fn upper(self) -> bool {
        self.idx() < 6
    }

    /// The face an upper category counts, or 0 for a lower category.
    pub open spec fn face(self) -> int {
        if self.upper() {
            self.idx() + 1
        } else {
            0
        }
    }

    /// Position of the category in the sheet order.
    pub fn index(self) -> (r: usize)
        ensures
            r == self.idx(),
    {
        match self {
            Category::Ones => 0,
            Category::Twos => 1,
            Category::Threes => 2,
            Category::Fours => 3,
            Category::Fives => 4,
            Category::Sixes => 5,
            Category::ThreeKind => 6,
            Category::FourKind => 7,
            Category::FullHouse => 8,
            Category::SmallStraight => 9,
            Category::LargeStraight => 10,
            Category::Yahtzee => 11,
            Category::Chance => 12,
        }
    }

    /// The category at a sheet position, if there is one.
    pub fn from_index(index: usize) -> (r: Option<Self>)
        ensures
            index < 13 ==> r == Some(category_at(index as int)),
            index >= 13 ==> r is None,
    {
        if index < 13 {
            Some(Self::at(index))
        } else {
            None
        }
    }

    /// The category at a sheet position below 13.
    pub fn at(index: usize) -> (r: Self)
        requires
            index < 13,
        ensures
            r == category_at(index as int),
            r.idx() == index,
    {
        if index == 0 {
            Category::Ones
        } else if index == 1 {
            Category::Twos
        } else if index == 2 {
            Category::Threes
        } else if index == 3 {
            Category::Fours
        } else if index == 4 {
            Category::Fives
        } else if index == 5 {
            Category::Sixes
        } else if index == 6 {
            Category::ThreeKind
        } else if index == 7 {
            Category::FourKind
        } else if index == 8 {
            Category::FullHouse
        } else if index == 9 {
            Category::SmallStraight
        } else if index == 10 {
            Category::LargeStraight
        } else if index == 11 {
            Category::Yahtzee
        } else {
            Category::Chance
        }
    }

    /// Whether the category belongs to the upper section.
    pub fn is_upper(self) -> (r: bool)
        ensures
            r == self.upper(),
    {
        self.index() < 6
    }

    /// The face an upper category counts.
    pub fn upper_face(self) -> (r: Option<u8>)
        ensures
            self.upper() ==> r == Some(self.face() as u8),
            !self.upper() ==> r is None,
    {
        match self {
            Category::Ones => Some(1),
            Category::Twos => Some(2),
            Category::Threes => Some(3),
            Category::Fours => Some(4),
            Category::Fives => Some(5),
            Category::Sixes => Some(6),
            _ => None,
        }
    }

    /// The upper category that counts `face`.
    pub fn upper_for_face(face: u8) -> (r: Option<Self>)
        ensures
            1 <= face <= 6 ==> r == Some(category_at(face - 1)),
            !(1 <= face <= 6) ==> r is None,
    {
        match face {
            1 => Some(Category::Ones),
            2 => Some(Category::Twos),
            3 => Some(Category::Threes),
            4 => Some(Category::Fours),
            5 => Some(Category::Fives),
            6 => Some(Category::Sixes),
            _ => None,
        }
    }

    /// Reads a category from a name or one of its aliases, ignoring case and
    /// any character that is not an ASCII letter or digit.
    pub fn from_name(name: &str) -> (r: Option<Self>)
        ensures
            r == category_for_normalized(normalize_spec(name.spec_bytes())),
    {
        Self::from_bytes(name.as_bytes())
    }

    /// Reads a category name given as bytes.
    pub fn from_bytes(name: &[u8]) -> (r: Option<Self>)
        ensures
            r == category_for_normalized(normalize_spec(name@)),
    {
        let n = normalize_name(name);
        let n = n.as_slice();
        if bytes_eq(n, "ones".as_bytes()) || bytes_eq(n, "one".as_bytes()) || bytes_eq(
            n,
            "aces".as_bytes(),
        ) || bytes_eq(n, "ace".as_bytes()) {
            Some(Category::Ones)
        } else if bytes_eq(n, "twos".as_bytes()) || bytes_eq(n, "two".as_bytes()) {
            Some(Category::Twos)
        } else if bytes_eq(n, "threes".as_bytes()) || bytes_eq(n, "three".as_bytes()) {
            Some(Category::Threes)
        } else if bytes_eq(n, "fours".as_bytes()) || bytes_eq(n, "four".as_bytes()) {
            Some(Category::Fours)
        } else if bytes_eq(n, "fives".as_bytes()) || bytes_eq(n, "five".as_bytes()) {
            Some(Category::Fives)
        } else if bytes_eq(n, "sixes".as_bytes()) || bytes_eq(n, "six".as_bytes()) {
            Some(Category::Sixes)
        } else if bytes_eq(n, "threekind".as_bytes()) || bytes_eq(n, "threeofakind".as_bytes())
            || bytes_eq(n, "3kind".as_bytes()) || bytes_eq(n, "3ofakind".as_bytes()) {
            Some(Category::ThreeKind)
        } else if bytes_eq(n, "fourkind".as_bytes()) || bytes_eq(n, "fourofakind".as_bytes())
            || bytes_eq(n, "4kind".as_bytes()) || bytes_eq(n, "4ofakind".as_bytes()) {
            Some(Category::FourKind)
        } else if bytes_eq(n, "fullhouse".as_bytes()) {
            Some(Category::FullHouse)
        } else if bytes_eq(n, "smallstraight".as_bytes()) || bytes_eq(n, "smstraight".as_bytes()) {
            Some(Category::SmallStraight)
        } else if bytes_eq(n, "largestraight".as_bytes()) || bytes_eq(n, "lgstraight".as_bytes()) {
            Some(Category::LargeStraight)
        } else if bytes_eq(n, "yahtzee".as_bytes()) || bytes_eq(n, "yatzy".as_bytes()) {
            Some(Category::Yahtzee)
        } else if bytes_eq(n, "chance".as_bytes()) {
            Some(Category::Chance)
        } else {
            None
        }
    }

    /// The name under which the category is printed.
    pub open spec fn name_spec(self) -> Seq<char> {
        match self {
            Category::Ones => "ones"@,
            Category::Twos => "twos"@,
            Category::Threes => "threes"@,
            Category::Fours => "fours"@,
            Category::Fives => "fives"@,
            Category::Sixes => "sixes"@,
            Category::ThreeKind => "three-kind"@,
            Category::FourKind => "four-kind"@,
            Category::FullHouse => "full-house"@,
            Category::SmallStraight => "small-straight"@,
            Category::LargeStraight => "large-straight"@,
            Category::Yahtzee => "yahtzee"@,
            Category::Chance => "chance"@,
        }
    }

    /// The name under which the category is printed.
    pub fn name(self) -> (r: &'static str)
        ensures
            r@ == self.name_spec(),
    {
        match self {
            Category::Ones => "ones",
            Category::Twos => "twos",
            Category::Threes => "threes",
            Category::Fours => "fours",
            Category::Fives => "fives",
            Category::Sixes => "sixes",
            Category::ThreeKind => "three-kind",
            Category::FourKind => "four-kind",
            Category::FullHouse => "full-house",
            Category::SmallStraight => "small-straight",
            Category::LargeStraight => "large-straight",
            Category::Yahtzee => "yahtzee",
            Category::Chance => "chance",
        }
    }

    /// All categories in sheet order.
    pub fn all() -> (r: [Category; 13])
        ensures
            forall|i: int| 0 <= i < 13 ==> #[trigger] r@[i] == category_at(i),
    {
        [
            Category::Ones,
            Category::Twos,
            Category::Threes,
            Category::Fours,
            Category::Fives,
            Category::Sixes,
            Category::ThreeKind,
            Category::FourKind,
            Category::FullHouse,
            Category::SmallStraight,
            Category::LargeStraight,
            Category::Yahtzee,
            Category::Chance,
        ]
    }

    /// The upper-section categories in sheet order.
    pub fn upper_categories() -> (r: [Category; 6])
        ensures
            forall|i: int| 0 <= i < 6 ==> #[trigger] r@[i] == category_at(i),
    {
        [
            Category::Ones,
            Category::Twos,
            Category::Threes,
            Category::Fours,
            Category::Fives,
            Category::Sixes,
        ]
    }

    /// The lower-section categories in sheet order.
    pub fn lower_categories() -> (r: [Category; 7])
        ensures
            forall|i: int| 0 <= i < 7 ==> #[trigger] r@[i] == category_at(i + 6),
    {
        [
            Category::ThreeKind,
            Category::FourKind,
            Category::FullHouse,
            Category::SmallStraight,
            Category::LargeStraight,
            Category::Yahtzee,
            Category::Chance,
        ]
    }
}

/// Sheet positions and categories correspond one to one.
pub proof fn lemma_category_index_roundtrip(c: Category, i: int)
    ensures
        category_at(c.idx()) == c,
        0 <= c.idx() < 13,
        0 <= i < 13 ==> category_at(i).idx() == i,
{
}

/// An upper category and its face determine each other.
pub proof fn law_upper_face_round_trip(c: Category, face: int)
    ensures
        c.upper() ==> 1 <= c.face() <= 6 && category_at(c.face() - 1) == c,
        1 <= face <= 6 ==> category_at(face - 1).upper() && category_at(face - 1).face() == face,
{
}

// ---------------------------------------------------------------------------
// Reading printed names back
// ---------------------------------------------------------------------------

/// The lengths of the words that name categories.
proof fn lemma_word_lengths()
    ensures
        "ones".spec_bytes().len() == 4,
        "one".spec_bytes().len() == 3,
        "aces".spec_bytes().len() == 4,
        "ace".spec_bytes().len() == 3,
        "twos".spec_bytes().len() == 4,
        "two".spec_bytes().len() == 3,
        "threes".spec_bytes().len() == 6,
        "three".spec_bytes().len() == 5,
        "fours".spec_bytes().len() == 5,
        "four".spec_bytes().len() == 4,
        "fives".spec_bytes().len() == 5,
        "five".spec_bytes().len() == 4,
        "sixes".spec_bytes().len() == 5,
        "six".spec_bytes().len() == 3,
        "threekind".spec_bytes().len() == 9,
        "threeofakind".spec_bytes().len() == 12,
        "3kind".spec_bytes().len() == 5,
        "3ofakind".spec_bytes().len() == 8,
        "fourkind".spec_bytes().len() == 8,
        "fourofakind".spec_bytes().len() == 11,
        "4kind".spec_bytes().len() == 5,
        "4ofakind".spec_bytes().len() == 8,
        "fullhouse".spec_bytes().len() == 9,
        "smallstraight".spec_bytes().len() == 13,
        "smstraight".spec_bytes().len() == 10,
        "largestraight".spec_bytes().len() == 13,
        "lgstraight".spec_bytes().len() == 10,
        "yahtzee".spec_bytes().len() == 7,
        "yatzy".spec_bytes().len() == 5,
        "chance".spec_bytes().len() == 6,
{
    reveal_strlit("ones");
    lemma_literal_bytes("ones");
    reveal_strlit("one");
    lemma_literal_bytes("one");
    reveal_strlit("aces");
    lemma_literal_bytes("aces");
    reveal_strlit("ace");
    lemma_literal_bytes("ace");
    reveal_strlit("twos");
    lemma_literal_bytes("twos");
    reveal_strlit("two");
    lemma_literal_bytes("two");
    reveal_strlit("threes");
    lemma_literal_bytes("threes");
    reveal_strlit("three");
    lemma_literal_bytes("three");
    reveal_strlit("fours");
    lemma_literal_bytes("fours");
    reveal_strlit("four");
    lemma_literal_bytes("four");
    reveal_strlit("fives");
    lemma_literal_bytes("fives");
    reveal_strlit("five");
    lemma_literal_bytes("five");
    reveal_strlit("sixes");
    lemma_literal_bytes("sixes");
    reveal_strlit("six");
    lemma_literal_bytes("six");
    reveal_strlit("threekind");
    lemma_literal_bytes("threekind");
    reveal_strlit("threeofakind");
    lemma_literal_bytes("threeofakind");
    reveal_strlit("3kind");
    lemma_literal_bytes("3kind");
    reveal_strlit("3ofakind");
    lemma_literal_bytes("3ofakind");
    reveal_strlit("fourkind");
    lemma_literal_bytes("fourkind");
    reveal_strlit("fourofakind");
    lemma_literal_bytes("fourofakind");
    reveal_strlit("4kind");
    lemma_literal_bytes("4kind");
    reveal_strlit("4ofakind");
    lemma_literal_bytes("4ofakind");
    reveal_strlit("fullhouse");
    lemma_literal_bytes("fullhouse");
    reveal_strlit("smallstraight");
    lemma_literal_bytes("smallstraight");
    reveal_strlit("smstraight");
    lemma_literal_bytes("smstraight");
    reveal_strlit("largestraight");
    lemma_literal_bytes("largestraight");
    reveal_strlit("lgstraight");
    lemma_literal_bytes("lgstraight");
    reveal_strlit("yahtzee");
    lemma_literal_bytes("yahtzee");
    reveal_strlit("yatzy");
    lemma_literal_bytes("yatzy");
    reveal_strlit("chance");
    lemma_literal_bytes("chance");
}

/// The first two bytes of the words that name categories.
proof fn lemma_word_heads()
    ensures
        "ones".spec_bytes()[0] == 111u8 && "ones".spec_bytes()[1] == 110u8,
        "one".spec_bytes()[0] == 111u8 && "one".spec_bytes()[1] == 110u8,
        "aces".spec_bytes()[0] == 97u8 && "aces".spec_bytes()[1] == 99u8,
        "ace".spec_bytes()[0] == 97u8 && "ace".spec_bytes()[1] == 99u8,
        "twos".spec_bytes()[0] == 116u8 && "twos".spec_bytes()[1] == 119u8,
        "two".spec_bytes()[0] == 116u8 && "two".spec_bytes()[1] == 119u8,
        "threes".spec_bytes()[0] == 116u8 && "threes".spec_bytes()[1] == 104u8,
        "three".spec_bytes()[0] == 116u8 && "three".spec_bytes()[1] == 104u8,
        "fours".spec_bytes()[0] == 102u8 && "fours".spec_bytes()[1] == 111u8,
        "four".spec_bytes()[0] == 102u8 && "four".spec_bytes()[1] == 111u8,
        "fives".spec_bytes()[0] == 102u8 && "fives".spec_bytes()[1] == 105u8,
        "five".spec_bytes()[0] == 102u8 && "five".spec_bytes()[1] == 105u8,
        "sixes".spec_bytes()[0] == 115u8 && "sixes".spec_bytes()[1] == 105u8,
        "six".spec_bytes()[0] == 115u8 && "six".spec_bytes()[1] == 105u8,
        "threekind".spec_bytes()[0] == 116u8 && "threekind".spec_bytes()[1] == 104u8,
        "threeofakind".spec_bytes()[0] == 116u8 && "threeofakind".spec_bytes()[1] == 104u8,
        "3kind".spec_bytes()[0] == 51u8 && "3kind".spec_bytes()[1] == 107u8,
        "3ofakind".spec_bytes()[0] == 51u8 && "3ofakind".spec_bytes()[1] == 111u8,
        "fourkind".spec_bytes()[0] == 102u8 && "fourkind".spec_bytes()[1] == 111u8,
        "fourofakind".spec_bytes()[0] == 102u8 && "fourofakind".spec_bytes()[1] == 111u8,
        "4kind".spec_bytes()[0] == 52u8 && "4kind".spec_bytes()[1] == 107u8,
        "4ofakind".spec_bytes()[0] == 52u8 && "4ofakind".spec_bytes()[1] == 111u8,
        "fullhouse".spec_bytes()[0] == 102u8 && "fullhouse".spec_bytes()[1] == 117u8,
        "smallstraight".spec_bytes()[0] == 115u8 && "smallstraight".spec_bytes()[1] == 109u8,
        "smstraight".spec_bytes()[0] == 115u8 && "smstraight".spec_bytes()[1] == 109u8,
        "largestraight".spec_bytes()[0] == 108u8 && "largestraight".spec_bytes()[1] == 97u8,
        "lgstraight".spec_bytes()[0] == 108u8 && "lgstraight".spec_bytes()[1] == 103u8,
        "yahtzee".spec_bytes()[0] == 121u8 && "yahtzee".spec_bytes()[1] == 97u8,
        "yatzy".spec_bytes()[0] == 121u8 && "yatzy".spec_bytes()[1] == 97u8,
        "chance".spec_bytes()[0] == 99u8 && "chance".spec_bytes()[1] == 104u8,
{
    reveal_strlit("ones");
    lemma_literal_bytes("ones");
    reveal_strlit("one");
    lemma_literal_bytes("one");
    reveal_strlit("aces");
    lemma_literal_bytes("aces");
    reveal_strlit("ace");
    lemma_literal_bytes("ace");
    reveal_strlit("twos");
    lemma_literal_bytes("twos");
    reveal_strlit("two");
    lemma_literal_bytes("two");
    reveal_strlit("threes");
    lemma_literal_bytes("threes");
    reveal_strlit("three");
    lemma_literal_bytes("three");
    reveal_strlit("fours");
    lemma_literal_bytes("fours");
    reveal_strlit("four");
    lemma_literal_bytes("four");
    reveal_strlit("fives");
    lemma_literal_bytes("fives");
    reveal_strlit("five");
    lemma_literal_bytes("five");
    reveal_strlit("sixes");
    lemma_literal_bytes("sixes");
    reveal_strlit("six");
    lemma_literal_bytes("six");
    reveal_strlit("threekind");
    lemma_literal_bytes("threekind");
    reveal_strlit("threeofakind");
    lemma_literal_bytes("threeofakind");
    reveal_strlit("3kind");
    lemma_literal_bytes("3kind");
    reveal_strlit("3ofakind");
    lemma_literal_bytes("3ofakind");
    reveal_strlit("fourkind");
    lemma_literal_bytes("fourkind");
    reveal_strlit("fourofakind");
    lemma_literal_bytes("fourofakind");
    reveal_strlit("4kind");
    lemma_literal_bytes("4kind");
    reveal_strlit("4ofakind");
    lemma_literal_bytes("4ofakind");
    reveal_strlit("fullhouse");
    lemma_literal_bytes("fullhouse");
    reveal_strlit("smallstraight");
    lemma_literal_bytes("smallstraight");
    reveal_strlit("smstraight");
    lemma_literal_bytes("smstraight");
    reveal_strlit("largestraight");
    lemma_literal_bytes("largestraight");
    reveal_strlit("lgstraight");
    lemma_literal_bytes("lgstraight");
    reveal_strlit("yahtzee");
    lemma_literal_bytes("yahtzee");
    reveal_strlit("yatzy");
    lemma_literal_bytes("yatzy");
    reveal_strlit("chance");
    lemma_literal_bytes("chance");
}

/// Each category is read from exactly its own names: after normalising, a
/// name reads as a category exactly when it is one of that category's
/// words (`ones`, `one`, `aces`, `ace` for ones; `fourkind`,
/// `fourofakind`, `4kind`, `4ofakind` for four of a kind; and so on).
pub proof fn law_category_aliases(n: Seq<u8>)
    ensures
        category_for_normalized(n) == Some(Category::Ones) <==> (is_word(n, "ones") || is_word(n, "one") || is_word(n, "aces") || is_word(n, "ace")),
        category_for_normalized(n) == Some(Category::Twos) <==> (is_word(n, "twos") || is_word(n, "two")),
        category_for_normalized(n) == Some(Category::Threes) <==> (is_word(n, "threes") || is_word(n, "three")),
        category_for_normalized(n) == Some(Category::Fours) <==> (is_word(n, "fours") || is_word(n, "four")),
        category_for_normalized(n) == Some(Category::Fives) <==> (is_word(n, "fives") || is_word(n, "five")),
        category_for_normalized(n) == Some(Category::Sixes) <==> (is_word(n, "sixes") || is_word(n, "six")),
        category_for_normalized(n) == Some(Category::ThreeKind) <==> (is_word(n, "threekind") || is_word(n, "threeofakind") || is_word(n, "3kind") || is_word(n, "3ofakind")),
        category_for_normalized(n) == Some(Category::FourKind) <==> (is_word(n, "fourkind") || is_word(n, "fourofakind") || is_word(n, "4kind") || is_word(n, "4ofakind")),
        category_for_normalized(n) == Some(Category::FullHouse) <==> (is_word(n, "fullhouse")),
        category_for_normalized(n) == Some(Category::SmallStraight) <==> (is_word(n, "smallstraight") || is_word(n, "smstraight")),
        category_for_normalized(n) == Some(Category::LargeStraight) <==> (is_word(n, "largestraight") || is_word(n, "lgstraight")),
        category_for_normalized(n) == Some(Category::Yahtzee) <==> (is_word(n, "yahtzee") || is_word(n, "yatzy")),
        category_for_normalized(n) == Some(Category::Chance) <==> (is_word(n, "chance")),
{
    lemma_word_lengths();
    lemma_word_heads();
}

/// The bytes of the word `ones`.
proof fn lemma_bytes_ones()
    ensures
        "ones".spec_bytes() == seq![111u8, 110u8, 101u8, 115u8],
{
    reveal_strlit("ones");
    lemma_literal_bytes("ones");
    assert(ascii_bytes("ones"@) =~= seq![111u8, 110u8, 101u8, 115u8]);
}

/// The bytes of the word `aces`.
proof fn lemma_bytes_aces()
    ensures
        "aces".spec_bytes() == seq![97u8, 99u8, 101u8, 115u8],
{
    reveal_strlit("aces");
    lemma_literal_bytes("aces");
    assert(ascii_bytes("aces"@) =~= seq![97u8, 99u8, 101u8, 115u8]);
}

/// The bytes of the word `twos`.
proof fn lemma_bytes_twos()
    ensures
        "twos".spec_bytes() == seq![116u8, 119u8, 111u8, 115u8],
{
    reveal_strlit("twos");
    lemma_literal_bytes("twos");
    assert(ascii_bytes("twos"@) =~= seq![116u8, 119u8, 111u8, 115u8]);
}

/// The bytes of the word `threes`.
proof fn lemma_bytes_threes()
    ensures
        "threes".spec_bytes() == seq![116u8, 104u8, 114u8, 101u8, 101u8, 115u8],
{
    reveal_strlit("threes");
    lemma_literal_bytes("threes");
    assert(ascii_bytes("threes"@) =~= seq![116u8, 104u8, 114u8, 101u8, 101u8, 115u8]);
}

/// The bytes of the word `three`.
proof fn lemma_bytes_three()
    ensures
        "three".spec_bytes() == seq![116u8, 104u8, 114u8, 101u8, 101u8],
{
    reveal_strlit("three");
    lemma_literal_bytes("three");
    assert(ascii_bytes("three"@) =~= seq![116u8, 104u8, 114u8, 101u8, 101u8]);
}

/// The bytes of the word `fours`.
proof fn lemma_bytes_fours()
    ensures
        "fours".spec_bytes() == seq![102u8, 111u8, 117u8, 114u8, 115u8],
{
    reveal_strlit("fours");
    lemma_literal_bytes("fours");
    assert(ascii_bytes("fours"@) =~= seq![102u8, 111u8, 117u8, 114u8, 115u8]);
}

/// The bytes of the word `fives`.
proof fn lemma_bytes_fives()
    ensures
        "fives".spec_bytes() == seq![102u8, 105u8, 118u8, 101u8, 115u8],
{
    reveal_strlit("fives");
    lemma_literal_bytes("fives");
    assert(ascii_bytes("fives"@) =~= seq![102u8, 105u8, 118u8, 101u8, 115u8]);
}

/// The bytes of the word `sixes`.
proof fn lemma_bytes_sixes()
    ensures
        "sixes".spec_bytes() == seq![115u8, 105u8, 120u8, 101u8, 115u8],
{
    reveal_strlit("sixes");
    lemma_literal_bytes("sixes");
    assert(ascii_bytes("sixes"@) =~= seq![115u8, 105u8, 120u8, 101u8, 115u8]);
}

/// The bytes of the word `threekind`.
proof fn lemma_bytes_threekind()
    ensures
        "threekind".spec_bytes() == seq![116u8, 104u8, 114u8, 101u8, 101u8, 107u8, 105u8, 110u8, 100u8],
{
    reveal_strlit("threekind");
    lemma_literal_bytes("threekind");
    assert(ascii_bytes("threekind"@) =~= seq![116u8, 104u8, 114u8, 101u8, 101u8, 107u8, 105u8, 110u8, 100u8]);
}

/// The bytes of the word `3ofakind`.
proof fn lemma_bytes_three_of_a_kind()
    ensures
        "3ofakind".spec_bytes() == seq![51u8, 111u8, 102u8, 97u8, 107u8, 105u8, 110u8, 100u8],
{
    reveal_strlit("3ofakind");
    lemma_literal_bytes("3ofakind");
    assert(ascii_bytes("3ofakind"@) =~= seq![51u8, 111u8, 102u8, 97u8, 107u8, 105u8, 110u8, 100u8]);
}

/// The bytes of the word `fourkind`.
proof fn lemma_bytes_fourkind()
    ensures
        "fourkind".spec_bytes() == seq![102u8, 111u8, 117u8, 114u8, 107u8, 105u8, 110u8, 100u8],
{
    reveal_strlit("fourkind");
    lemma_literal_bytes("fourkind");
    assert(ascii_bytes("fourkind"@) =~= seq![102u8, 111u8, 117u8, 114u8, 107u8, 105u8, 110u8, 100u8]);
}

/// The bytes of the word `fullhouse`.
proof fn lemma_bytes_fullhouse()
    ensures
        "fullhouse".spec_bytes() == seq![102u8, 117u8, 108u8, 108u8, 104u8, 111u8, 117u8, 115u8, 101u8],
{
    reveal_strlit("fullhouse");
    lemma_literal_bytes("fullhouse");
    assert(ascii_bytes("fullhouse"@) =~= seq![102u8, 117u8, 108u8, 108u8, 104u8, 111u8, 117u8, 115u8, 101u8]);
}

/// The bytes of the word `smallstraight`.
proof fn lemma_bytes_smallstraight()
    ensures
        "smallstraight".spec_bytes() == seq![115u8, 109u8, 97u8, 108u8, 108u8, 115u8, 116u8, 114u8, 97u8, 105u8, 103u8, 104u8, 116u8],
{
    reveal_strlit("smallstraight");
    lemma_literal_bytes("smallstraight");
    assert(ascii_bytes("smallstraight"@) =~= seq![115u8, 109u8, 97u8, 108u8, 108u8, 115u8, 116u8, 114u8, 97u8, 105u8, 103u8, 104u8, 116u8]);
}

/// The bytes of the word `largestraight`.
proof fn lemma_bytes_largestraight()
    ensures
        "largestraight".spec_bytes() == seq![108u8, 97u8, 114u8, 103u8, 101u8, 115u8, 116u8, 114u8, 97u8, 105u8, 103u8, 104u8, 116u8],
{
    reveal_strlit("largestraight");
    lemma_literal_bytes("largestraight");
    assert(ascii_bytes("largestraight"@) =~= seq![108u8, 97u8, 114u8, 103u8, 101u8, 115u8, 116u8, 114u8, 97u8, 105u8, 103u8, 104u8, 116u8]);
}

/// The bytes of the word `yahtzee`.
proof fn lemma_bytes_yahtzee()
    ensures
        "yahtzee".spec_bytes() == seq![121u8, 97u8, 104u8, 116u8, 122u8, 101u8, 101u8],
{
    reveal_strlit("yahtzee");
    lemma_literal_bytes("yahtzee");
    assert(ascii_bytes("yahtzee"@) =~= seq![121u8, 97u8, 104u8, 116u8, 122u8, 101u8, 101u8]);
}

/// The bytes of the word `chance`.
proof fn lemma_bytes_chance()
    ensures
        "chance".spec_bytes() == seq![99u8, 104u8, 97u8, 110u8, 99u8, 101u8],
{
    reveal_strlit("chance");
    lemma_literal_bytes("chance");
    assert(ascii_bytes("chance"@) =~= seq![99u8, 104u8, 97u8, 110u8, 99u8, 101u8]);
}

/// The bytes of a category's printed name.
pub open spec fn name_bytes(c: Category) -> Seq<u8> {
    match c {
        Category::Ones => seq![111u8, 110u8, 101u8, 115u8],
        Category::Twos => seq![116u8, 119u8, 111u8, 115u8],
        Category::Threes => seq![116u8, 104u8, 114u8, 101u8, 101u8, 115u8],
        Category::Fours => seq![102u8, 111u8, 117u8, 114u8, 115u8],
        Category::Fives => seq![102u8, 105u8, 118u8, 101u8, 115u8],
        Category::Sixes => seq![115u8, 105u8, 120u8, 101u8, 115u8],
        Category::ThreeKind => seq![116u8, 104u8, 114u8, 101u8, 101u8, 45u8, 107u8, 105u8, 110u8, 100u8],
        Category::FourKind => seq![102u8, 111u8, 117u8, 114u8, 45u8, 107u8, 105u8, 110u8, 100u8],
        Category::FullHouse => seq![102u8, 117u8, 108u8, 108u8, 45u8, 104u8, 111u8, 117u8, 115u8, 101u8],
        Category::SmallStraight => seq![115u8, 109u8, 97u8, 108u8, 108u8, 45u8, 115u8, 116u8, 114u8, 97u8, 105u8, 103u8, 104u8, 116u8],
        Category::LargeStraight => seq![108u8, 97u8, 114u8, 103u8, 101u8, 45u8, 115u8, 116u8, 114u8, 97u8, 105u8, 103u8, 104u8, 116u8],
        Category::Yahtzee => seq![121u8, 97u8, 104u8, 116u8, 122u8, 101u8, 101u8],
        Category::Chance => seq![99u8, 104u8, 97u8, 110u8, 99u8, 101u8],
    }
}

/// A category's printed name is ASCII, byte for byte its `name_bytes`.
pub proof fn lemma_name_bytes(c: Category)
    ensures
        is_ascii_chars(c.name_spec()),
        ascii_bytes(c.name_spec()) == name_bytes(c),
{
    match c {
        Category::Ones => {
            reveal_strlit("ones");
            assert(ascii_bytes(c.name_spec()) =~= seq![111u8, 110u8, 101u8, 115u8]);
        },
        Category::Twos => {
            reveal_strlit("twos");
            assert(ascii_bytes(c.name_spec()) =~= seq![116u8, 119u8, 111u8, 115u8]);
        },
        Category::Threes => {
            reveal_strlit("threes");
            assert(ascii_bytes(c.name_spec()) =~= seq![116u8, 104u8, 114u8, 101u8, 101u8, 115u8]);
        },
        Category::Fours => {
            reveal_strlit("fours");
            assert(ascii_bytes(c.name_spec()) =~= seq![102u8, 111u8, 117u8, 114u8, 115u8]);
        },
        Category::Fives => {
            reveal_strlit("fives");
            assert(ascii_bytes(c.name_spec()) =~= seq![102u8, 105u8, 118u8, 101u8, 115u8]);
        },
        Category::Sixes => {
            reveal_strlit("sixes");
            assert(ascii_bytes(c.name_spec()) =~= seq![115u8, 105u8, 120u8, 101u8, 115u8]);
        },
        Category::ThreeKind => {
            reveal_strlit("three-kind");
            assert(ascii_bytes(c.name_spec()) =~= seq![116u8, 104u8, 114u8, 101u8, 101u8, 45u8, 107u8, 105u8, 110u8, 100u8]);
        },
        Category::FourKind => {
            reveal_strlit("four-kind");
            assert(ascii_bytes(c.name_spec()) =~= seq![102u8, 111u8, 117u8, 114u8, 45u8, 107u8, 105u8, 110u8, 100u8]);
        },
        Category::FullHouse => {
            reveal_strlit("full-house");
            assert(ascii_bytes(c.name_spec()) =~= seq![102u8, 117u8, 108u8, 108u8, 45u8, 104u8, 111u8, 117u8, 115u8, 101u8]);
        },
        Category::SmallStraight => {
            reveal_strlit("small-straight");
            assert(ascii_bytes(c.name_spec()) =~= seq![115u8, 109u8, 97u8, 108u8, 108u8, 45u8, 115u8, 116u8, 114u8, 97u8, 105u8, 103u8, 104u8, 116u8]);
        },
        Category::LargeStraight => {
            reveal_strlit("large-straight");
            assert(ascii_bytes(c.name_spec()) =~= seq![108u8, 97u8, 114u8, 103u8, 101u8, 45u8, 115u8, 116u8, 114u8, 97u8, 105u8, 103u8, 104u8, 116u8]);
        },
        Category::Yahtzee => {
            reveal_strlit("yahtzee");
            assert(ascii_bytes(c.name_spec()) =~= seq![121u8, 97u8, 104u8, 116u8, 122u8, 101u8, 101u8]);
        },
        Category::Chance => {
            reveal_strlit("chance");
            assert(ascii_bytes(c.name_spec()) =~= seq![99u8, 104u8, 97u8, 110u8, 99u8, 101u8]);
        },
    }
}

/// A printed name is lower-case letters and hyphens: no white space,
/// commas, colons or equals signs, and never empty.
pub proof fn lemma_name_plain(c: Category)
    ensures
        name_bytes(c).len() > 0,
        spaceless(name_bytes(c)),
        lacks(name_bytes(c), 44),
        lacks(name_bytes(c), 58),
        lacks(name_bytes(c), 61),
{
    let n = name_bytes(c);
    assert forall|i: int| 0 <= i < n.len() implies (97 <= #[trigger] n[i] <= 122) || n[i] == 45 by {
        match c {
            Category::Ones => {},
            Category::Twos => {},
            Category::Threes => {},
            Category::Fours => {},
            Category::Fives => {},
            Category::Sixes => {},
            Category::ThreeKind => {},
            Category::FourKind => {},
            Category::FullHouse => {},
            Category::SmallStraight => {},
            Category::LargeStraight => {},
            Category::Yahtzee => {},
            Category::Chance => {},
        }
    }
}

/// A category's name as the name reader sees it: lower case, no hyphens.
pub open spec fn normalized_name(c: Category) -> Seq<u8> {
    match c {
        Category::Ones => seq![111u8, 110u8, 101u8, 115u8],
        Category::Twos => seq![116u8, 119u8, 111u8, 115u8],
        Category::Threes => seq![116u8, 104u8, 114u8, 101u8, 101u8, 115u8],
        Category::Fours => seq![102u8, 111u8, 117u8, 114u8, 115u8],
        Category::Fives => seq![102u8, 105u8, 118u8, 101u8, 115u8],
        Category::Sixes => seq![115u8, 105u8, 120u8, 101u8, 115u8],
        Category::ThreeKind => seq![116u8, 104u8, 114u8, 101u8, 101u8, 107u8, 105u8, 110u8, 100u8],
        Category::FourKind => seq![102u8, 111u8, 117u8, 114u8, 107u8, 105u8, 110u8, 100u8],
        Category::FullHouse => seq![102u8, 117u8, 108u8, 108u8, 104u8, 111u8, 117u8, 115u8, 101u8],
        Category::SmallStraight => seq![115u8, 109u8, 97u8, 108u8, 108u8, 115u8, 116u8, 114u8, 97u8, 105u8, 103u8, 104u8, 116u8],
        Category::LargeStraight => seq![108u8, 97u8, 114u8, 103u8, 101u8, 115u8, 116u8, 114u8, 97u8, 105u8, 103u8, 104u8, 116u8],
        Category::Yahtzee => seq![121u8, 97u8, 104u8, 116u8, 122u8, 101u8, 101u8],
        Category::Chance => seq![99u8, 104u8, 97u8, 110u8, 99u8, 101u8],
    }
}

pub proof fn lemma_name_normalized(c: Category)
    ensures
        normalize_spec(name_bytes(c)) == normalized_name(c),
{
    match c {
        Category::Ones => {
            lemma_normalize_plain(name_bytes(c));
        },
        Category::Twos => {
            lemma_normalize_plain(name_bytes(c));
        },
        Category::Threes => {
            lemma_normalize_plain(name_bytes(c));
        },
        Category::Fours => {
            lemma_normalize_plain(name_bytes(c));
        },
        Category::Fives => {
            lemma_normalize_plain(name_bytes(c));
        },
        Category::Sixes => {
            lemma_normalize_plain(name_bytes(c));
        },
        Category::ThreeKind => {
            assert(name_bytes(c) =~= seq![116u8, 104u8, 114u8, 101u8, 101u8].push(45u8) + seq![107u8, 105u8, 110u8, 100u8]);
            lemma_normalize_hyphen(seq![116u8, 104u8, 114u8, 101u8, 101u8], seq![107u8, 105u8, 110u8, 100u8]);
            assert(seq![116u8, 104u8, 114u8, 101u8, 101u8] + seq![107u8, 105u8, 110u8, 100u8] =~= seq![116u8, 104u8, 114u8, 101u8, 101u8, 107u8, 105u8, 110u8, 100u8]);
        },
        Category::FourKind => {
            assert(name_bytes(c) =~= seq![102u8, 111u8, 117u8, 114u8].push(45u8) + seq![107u8, 105u8, 110u8, 100u8]);
            lemma_normalize_hyphen(seq![102u8, 111u8, 117u8, 114u8], seq![107u8, 105u8, 110u8, 100u8]);
            assert(seq![102u8, 111u8, 117u8, 114u8] + seq![107u8, 105u8, 110u8, 100u8] =~= seq![102u8, 111u8, 117u8, 114u8, 107u8, 105u8, 110u8, 100u8]);
        },
        Category::FullHouse => {
            assert(name_bytes(c) =~= seq![102u8, 117u8, 108u8, 108u8].push(45u8) + seq![104u8, 111u8, 117u8, 115u8, 101u8]);
            lemma_normalize_hyphen(seq![102u8, 117u8, 108u8, 108u8], seq![104u8, 111u8, 117u8, 115u8, 101u8]);
            assert(seq![102u8, 117u8, 108u8, 108u8] + seq![104u8, 111u8, 117u8, 115u8, 101u8] =~= seq![102u8, 117u8, 108u8, 108u8, 104u8, 111u8, 117u8, 115u8, 101u8]);
        },
        Category::SmallStraight => {
            assert(name_bytes(c) =~= seq![115u8, 109u8, 97u8, 108u8, 108u8].push(45u8) + seq![115u8, 116u8, 114u8, 97u8, 105u8, 103u8, 104u8, 116u8]);
            lemma_normalize_hyphen(seq![115u8, 109u8, 97u8, 108u8, 108u8], seq![115u8, 116u8, 114u8, 97u8, 105u8, 103u8, 104u8, 116u8]);
            assert(seq![115u8, 109u8, 97u8, 108u8, 108u8] + seq![115u8, 116u8, 114u8, 97u8, 105u8, 103u8, 104u8, 116u8] =~= seq![115u8, 109u8, 97u8, 108u8, 108u8, 115u8, 116u8, 114u8, 97u8, 105u8, 103u8, 104u8, 116u8]);
        },
        Category::LargeStraight => {
            assert(name_bytes(c) =~= seq![108u8, 97u8, 114u8, 103u8, 101u8].push(45u8) + seq![115u8, 116u8, 114u8, 97u8, 105u8, 103u8, 104u8, 116u8]);
            lemma_normalize_hyphen(seq![108u8, 97u8, 114u8, 103u8, 101u8], seq![115u8, 116u8, 114u8, 97u8, 105u8, 103u8, 104u8, 116u8]);
            assert(seq![108u8, 97u8, 114u8, 103u8, 101u8] + seq![115u8, 116u8, 114u8, 97u8, 105u8, 103u8, 104u8, 116u8] =~= seq![108u8, 97u8, 114u8, 103u8, 101u8, 115u8, 116u8, 114u8, 97u8, 105u8, 103u8, 104u8, 116u8]);
        },
        Category::Yahtzee => {
            lemma_normalize_plain(name_bytes(c));
        },
        Category::Chance => {
            lemma_normalize_plain(name_bytes(c));
        },
    }
}

/// The normalised name of `ones` reads as that category.
proof fn lemma_reads_ones()
    ensures
        category_for_normalized(seq![111u8, 110u8, 101u8, 115u8]) == Some(Category::Ones),
{
    lemma_word_lengths();
    lemma_bytes_ones();
}

/// The normalised name of `twos` reads as that category.
proof fn lemma_reads_twos()
    ensures
        category_for_normalized(seq![116u8, 119u8, 111u8, 115u8]) == Some(Category::Twos),
{
    lemma_word_lengths();
    lemma_bytes_ones();
    lemma_bytes_aces();
    lemma_bytes_twos();
}

/// The normalised name of `threes` reads as that category.
proof fn lemma_reads_threes()
    ensures
        category_for_normalized(seq![116u8, 104u8, 114u8, 101u8, 101u8, 115u8]) == Some(Category::Threes),
{
    lemma_word_lengths();
    lemma_bytes_threes();
}

/// The normalised name of `fours` reads as that category.
proof fn lemma_reads_fours()
    ensures
        category_for_normalized(seq![102u8, 111u8, 117u8, 114u8, 115u8]) == Some(Category::Fours),
{
    lemma_word_lengths();
    lemma_bytes_three();
    lemma_bytes_fours();
}

/// The normalised name of `fives` reads as that category.
proof fn lemma_reads_fives()
    ensures
        category_for_normalized(seq![102u8, 105u8, 118u8, 101u8, 115u8]) == Some(Category::Fives),
{
    lemma_word_lengths();
    lemma_bytes_three();
    lemma_bytes_fours();
    lemma_bytes_fives();
}

/// The normalised name of `sixes` reads as that category.
proof fn lemma_reads_sixes()
    ensures
        category_for_normalized(seq![115u8, 105u8, 120u8, 101u8, 115u8]) == Some(Category::Sixes),
{
    lemma_word_lengths();
    lemma_bytes_three();
    lemma_bytes_fours();
    lemma_bytes_fives();
    lemma_bytes_sixes();
}

/// The normalised name of `three_kind` reads as that category.
proof fn lemma_reads_three_kind()
    ensures
        category_for_normalized(seq![116u8, 104u8, 114u8, 101u8, 101u8, 107u8, 105u8, 110u8, 100u8]) == Some(Category::ThreeKind),
{
    lemma_word_lengths();
    lemma_bytes_threekind();
}

/// The normalised name of `four_kind` reads as that category.
proof fn lemma_reads_four_kind()
    ensures
        category_for_normalized(seq![102u8, 111u8, 117u8, 114u8, 107u8, 105u8, 110u8, 100u8]) == Some(Category::FourKind),
{
    lemma_word_lengths();
    lemma_bytes_three_of_a_kind();
    lemma_bytes_fourkind();
}

/// The normalised name of `full_house` reads as that category.
proof fn lemma_reads_full_house()
    ensures
        category_for_normalized(seq![102u8, 117u8, 108u8, 108u8, 104u8, 111u8, 117u8, 115u8, 101u8]) == Some(Category::FullHouse),
{
    lemma_word_lengths();
    lemma_bytes_threekind();
    lemma_bytes_fullhouse();
}

/// The normalised name of `small_straight` reads as that category.
proof fn lemma_reads_small_straight()
    ensures
        category_for_normalized(seq![115u8, 109u8, 97u8, 108u8, 108u8, 115u8, 116u8, 114u8, 97u8, 105u8, 103u8, 104u8, 116u8]) == Some(Category::SmallStraight),
{
    lemma_word_lengths();
    lemma_bytes_smallstraight();
}

/// The normalised name of `large_straight` reads as that category.
proof fn lemma_reads_large_straight()
    ensures
        category_for_normalized(seq![108u8, 97u8, 114u8, 103u8, 101u8, 115u8, 116u8, 114u8, 97u8, 105u8, 103u8, 104u8, 116u8]) == Some(Category::LargeStraight),
{
    lemma_word_lengths();
    lemma_bytes_smallstraight();
    lemma_bytes_largestraight();
}

/// The normalised name of `yahtzee` reads as that category.
proof fn lemma_reads_yahtzee()
    ensures
        category_for_normalized(seq![121u8, 97u8, 104u8, 116u8, 122u8, 101u8, 101u8]) == Some(Category::Yahtzee),
{
    lemma_word_lengths();
    lemma_bytes_yahtzee();
}

/// The normalised name of `chance` reads as that category.
proof fn lemma_reads_chance()
    ensures
        category_for_normalized(seq![99u8, 104u8, 97u8, 110u8, 99u8, 101u8]) == Some(Category::Chance),
{
    lemma_word_lengths();
    lemma_bytes_threes();
    lemma_bytes_chance();
}

/// A printed name, normalised, names its category again.
pub proof fn lemma_name_normalizes(c: Category)
    ensures
        category_for_normalized(normalize_spec(name_bytes(c))) == Some(c),
{
    lemma_name_normalized(c);
    match c {
        Category::Ones => lemma_reads_ones(),
        Category::Twos => lemma_reads_twos(),
        Category::Threes => lemma_reads_threes(),
        Category::Fours => lemma_reads_fours(),
        Category::Fives => lemma_reads_fives(),
        Category::Sixes => lemma_reads_sixes(),
        Category::ThreeKind => lemma_reads_three_kind(),
        Category::FourKind => lemma_reads_four_kind(),
        Category::FullHouse => lemma_reads_full_house(),
        Category::SmallStraight => lemma_reads_small_straight(),
        Category::LargeStraight => lemma_reads_large_straight(),
        Category::Yahtzee => lemma_reads_yahtzee(),
        Category::Chance => lemma_reads_chance(),
    }
}

proof fn lemma_ruleset_words()
    ensures
        "hasbro".spec_bytes() == seq![104u8, 97u8, 115u8, 98u8, 114u8, 111u8],
        "hasbrostrict".spec_bytes().len() == 12,
        "strict".spec_bytes().len() == 6,
        "buddyboardgames".spec_bytes() == seq![98u8, 117u8, 100u8, 100u8, 121u8, 98u8, 111u8, 97u8, 114u8, 100u8, 103u8, 97u8, 109u8, 101u8, 115u8],
        is_ascii_chars("hasbro"@),
        is_ascii_chars("buddyboardgames"@),
        ascii_bytes("hasbro"@) == seq![104u8, 97u8, 115u8, 98u8, 114u8, 111u8],
        ascii_bytes("buddyboardgames"@) == seq![98u8, 117u8, 100u8, 100u8, 121u8, 98u8, 111u8, 97u8, 114u8, 100u8, 103u8, 97u8, 109u8, 101u8, 115u8],
{
    reveal_strlit("hasbro");
    reveal_strlit("hasbrostrict");
    reveal_strlit("strict");
    reveal_strlit("buddyboardgames");
    lemma_literal_bytes("hasbro");
    lemma_literal_bytes("hasbrostrict");
    lemma_literal_bytes("strict");
    lemma_literal_bytes("buddyboardgames");
    assert(ascii_bytes("hasbro"@) =~= seq![104u8, 97u8, 115u8, 98u8, 114u8, 111u8]);
    assert(ascii_bytes("buddyboardgames"@) =~= seq![98u8, 117u8, 100u8, 100u8, 121u8, 98u8, 111u8, 97u8, 114u8, 100u8, 103u8, 97u8, 109u8, 101u8, 115u8]);
}

/// A rule variant read back from its printed name is the same variant.
pub proof fn law_ruleset_name_round_trip(r: Ruleset)
    ensures
        ruleset_for_normalized(normalize_spec(encode_utf8(r.name_spec()))) == Some(r),
{
    lemma_ruleset_words();
    lemma_encode_ascii(r.name_spec());
    lemma_normalize_plain(ascii_bytes(r.name_spec()));
}

/// A category read back from its printed name is the same category.
pub proof fn law_category_name_round_trip(c: Category)
    ensures
        category_for_normalized(normalize_spec(encode_utf8(c.name_spec()))) == Some(c),
{
    lemma_name_bytes(c);
    lemma_encode_ascii(c.name_spec());
    lemma_name_normalizes(c);
}

} // verus!
