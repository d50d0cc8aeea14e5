//! The deterministic order on games: lexicographic over name (absent first),
//! then platform (`Native` before `Wine`, absent first), then directory,
//! then genres, then launchers. Strings compare lexicographically by code
//! point.

use vstd::prelude::*;
use vstd::relations::{sorted_by, total_ordering};
use vstd::seq_lib::lemma_multiset_commutative;
use crate::game::{Game, GameView, Genre, Platform, games_view};
use crate::strings::{opt_str_view, strs_view};

verus! {

/// The outcome of a three-way comparison.
#[derive(Debug, Clone, Copy, PartialEq, Eq, Structural)]
pub enum Cmp {
    Less,
    Equal,
    Greater,
}

/// The outcome with the sides swapped.
pub open spec fn cmp_flip(c: Cmp) -> Cmp {
    match c {
        Cmp::Less => Cmp::Greater,
        Cmp::Equal => Cmp::Equal,
        Cmp::Greater => Cmp::Less,
    }
}

/// Lexicographic three-way comparison of character sequences by code point.
pub open spec fn cmp_chars(a: Seq<char>, b: Seq<char>) -> Cmp
    decreases a.len(),
{
    if a.len() == 0 && b.len() == 0 {
        Cmp::Equal
    } else if a.len() == 0 {
        Cmp::Less
    } else if b.len() == 0 {
        Cmp::Greater
    } else if a[0] < b[0] {
        Cmp::Less
    } else if b[0] < a[0] {
        Cmp::Greater
    } else {
        cmp_chars(a.drop_first(), b.drop_first())
    }
}

pub proof fn lemma_cmp_chars_eq(a: Seq<char>, b: Seq<char>)
    ensures
        (cmp_chars(a, b) == Cmp::Equal) <==> (a == b),
    decreases a.len(),
{
    if a.len() == 0 && b.len() == 0 {
        assert(a =~= b);
    } else if a.len() == 0 || b.len() == 0 {
    } else if a[0] < b[0] || b[0] < a[0] {
    } else {
        assert(a[0] == b[0]);
        lemma_cmp_chars_eq(a.drop_first(), b.drop_first());
        if cmp_chars(a, b) == Cmp::Equal {
            assert(a.drop_first() == b.drop_first());
            assert forall|j: int| 0 <= j < a.len() implies a[j] == b[j] by {
                if j > 0 {
                    assert(a.drop_first()[j - 1] == b.drop_first()[j - 1]);
                    assert(a.drop_first()[j - 1] == a[j]);
                    assert(b.drop_first()[j - 1] == b[j]);
                }
            }
            assert(a =~= b);
        }
        if a == b {
            assert(a.drop_first() =~= b.drop_first());
        }
    }
}

pub proof fn lemma_cmp_chars_flip(a: Seq<char>, b: Seq<char>)
    ensures
        cmp_chars(b, a) == cmp_flip(cmp_chars(a, b)),
    decreases a.len(),
{
    if a.len() == 0 || b.len() == 0 {
    } else {
        lemma_cmp_chars_flip(a.drop_first(), b.drop_first());
    }
}

pub proof fn lemma_cmp_chars_trans(a: Seq<char>, b: Seq<char>, c: Seq<char>)
    requires
        cmp_chars(a, b) != Cmp::Greater,
        cmp_chars(b, c) != Cmp::Greater,
    ensures
        cmp_chars(a, c) != Cmp::Greater,
    decreases a.len() + b.len() + c.len(),
{
    if a.len() == 0 {
    } else {
        assert(b.len() > 0);
        assert(c.len() > 0);
        if a[0] < c[0] {
        } else {
            assert(!(b[0] < a[0]));
            assert(!(c[0] < b[0]));
            assert(a[0] == b[0] && b[0] == c[0]);
            lemma_cmp_chars_trans(a.drop_first(), b.drop_first(), c.drop_first());
        }
    }
}

/// The rank of an optional platform: absent first, then `Native`, `Wine`.
pub open spec fn platform_rank(p: Option<Platform>) -> int {
    match p {
        None => 0,
        Some(Platform::Native) => 1,
        Some(Platform::Wine) => 2,
    }
}

/// Three-way comparison of optional platforms by rank.
pub open spec fn cmp_platform(a: Option<Platform>, b: Option<Platform>) -> Cmp {
    if platform_rank(a) < platform_rank(b) {
        Cmp::Less
    } else if platform_rank(a) > platform_rank(b) {
        Cmp::Greater
    } else {
        Cmp::Equal
    }
}

pub proof fn lemma_cmp_platform(a: Option<Platform>, b: Option<Platform>)
    ensures
        (cmp_platform(a, b) == Cmp::Equal) <==> (a == b),
        cmp_platform(b, a) == cmp_flip(cmp_platform(a, b)),
{
}

/// The rank of a genre.
pub open spec fn genre_rank(g: Genre) -> int {
    match g {
        Genre::Action => 0,
        Genre::Platformer => 1,
    }
}

/// Lexicographic three-way comparison of genre sequences by rank.
pub open spec fn cmp_genres(a: Seq<Genre>, b: Seq<Genre>) -> Cmp
    decreases a.len(),
{
    if a.len() == 0 && b.len() == 0 {
        Cmp::Equal
    } else if a.len() == 0 {
        Cmp::Less
    } else if b.len() == 0 {
        Cmp::Greater
    } else if genre_rank(a[0]) < genre_rank(b[0]) {
        Cmp::Less
    } else if genre_rank(a[0]) > genre_rank(b[0]) {
        Cmp::Greater
    } else {
        cmp_genres(a.drop_first(), b.drop_first())
    }
}

pub proof fn lemma_cmp_genres_eq(a: Seq<Genre>, b: Seq<Genre>)
    ensures
        (cmp_genres(a, b) == Cmp::Equal) <==> (a == b),
    decreases a.len(),
{
    if a.len() == 0 && b.len() == 0 {
        assert(a =~= b);
    } else if a.len() == 0 || b.len() == 0 {
    } else if genre_rank(a[0]) != genre_rank(b[0]) {
    } else {
        lemma_cmp_genres_eq(a.drop_first(), b.drop_first());
        if cmp_genres(a, b) == Cmp::Equal {
            assert(a =~= b) by {
                assert(a.drop_first() =~= b.drop_first());
                assert forall|j: int| 0 <= j < a.len() implies a[j] == b[j] by {
                    if j > 0 {
                        assert(a.drop_first()[j - 1] == b.drop_first()[j - 1]);
                    }
                }
            }
        }
        if a == b {
            assert(a.drop_first() =~= b.drop_first());
        }
    }
}

pub proof fn lemma_cmp_genres_flip(a: Seq<Genre>, b: Seq<Genre>)
    ensures
        cmp_genres(b, a) == cmp_flip(cmp_genres(a, b)),
    decreases a.len(),
{
    if a.len() == 0 || b.len() == 0 {
    } else {
        lemma_cmp_genres_flip(a.drop_first(), b.drop_first());
    }
}

pub proof fn lemma_cmp_genres_trans(a: Seq<Genre>, b: Seq<Genre>, c: Seq<Genre>)
    requires
        cmp_genres(a, b) != Cmp::Greater,
        cmp_genres(b, c) != Cmp::Greater,
    ensures
        cmp_genres(a, c) != Cmp::Greater,
    decreases a.len() + b.len() + c.len(),
{
    if a.len() == 0 {
    } else {
        assert(b.len() > 0);
        assert(c.len() > 0);
        if genre_rank(a[0]) < genre_rank(c[0]) {
        } else {
            lemma_cmp_genres_trans(a.drop_first(), b.drop_first(), c.drop_first());
        }
    }
}

/// Lexicographic three-way comparison of string sequences.
pub open spec fn cmp_strs(a: Seq<Seq<char>>, b: Seq<Seq<char>>) -> Cmp
    decreases a.len(),
{
    if a.len() == 0 && b.len() == 0 {
        Cmp::Equal
    } else if a.len() == 0 {
        Cmp::Less
    } else if b.len() == 0 {
        Cmp::Greater
    } else {
        match cmp_chars(a[0], b[0]) {
            Cmp::Equal => cmp_strs(a.drop_first(), b.drop_first()),
            c => c,
        }
    }
}

pub proof fn lemma_cmp_strs_eq(a: Seq<Seq<char>>, b: Seq<Seq<char>>)
    ensures
        (cmp_strs(a, b) == Cmp::Equal) <==> (a == b),
    decreases a.len(),
{
    if a.len() == 0 && b.len() == 0 {
        assert(a =~= b);
    } else if a.len() == 0 || b.len() == 0 {
    } else {
        lemma_cmp_chars_eq(a[0], b[0]);
        if cmp_chars(a[0], b[0]) == Cmp::Equal {
            lemma_cmp_strs_eq(a.drop_first(), b.drop_first());
            if cmp_strs(a, b) == Cmp::Equal {
                assert(a =~= b) by {
                    assert(a.drop_first() =~= b.drop_first());
                    assert forall|j: int| 0 <= j < a.len() implies a[j] == b[j] by {
                        if j > 0 {
                            assert(a.drop_first()[j - 1] == b.drop_first()[j - 1]);
                        }
                    }
                }
            }
            if a == b {
                assert(a.drop_first() =~= b.drop_first());
            }
        } else {
            if a == b {
                assert(a[0] == b[0]);
            }
        }
    }
}

pub proof fn lemma_cmp_strs_flip(a: Seq<Seq<char>>, b: Seq<Seq<char>>)
    ensures
        cmp_strs(b, a) == cmp_flip(cmp_strs(a, b)),
    decreases a.len(),
{
    if a.len() == 0 || b.len() == 0 {
    } else {
        lemma_cmp_chars_flip(a[0], b[0]);
        lemma_cmp_strs_flip(a.drop_first(), b.drop_first());
    }
}

pub proof fn lemma_cmp_strs_trans(a: Seq<Seq<char>>, b: Seq<Seq<char>>, c: Seq<Seq<char>>)
    requires
        cmp_strs(a, b) != Cmp::Greater,
        cmp_strs(b, c) != Cmp::Greater,
    ensures
        cmp_strs(a, c) != Cmp::Greater,
    decreases a.len() + b.len() + c.len(),
{
    if a.len() == 0 {
    } else {
        assert(b.len() > 0);
        assert(c.len() > 0);
        lemma_cmp_chars_eq(a[0], b[0]);
        lemma_cmp_chars_eq(b[0], c[0]);
        lemma_cmp_chars_eq(a[0], c[0]);
        lemma_cmp_chars_flip(a[0], c[0]);
        lemma_cmp_chars_trans(a[0], b[0], c[0]);
        if cmp_chars(a[0], b[0]) == Cmp::Equal && cmp_chars(b[0], c[0]) == Cmp::Equal {
            lemma_cmp_strs_trans(a.drop_first(), b.drop_first(), c.drop_first());
        } else if cmp_chars(a[0], c[0]) == Cmp::Equal {
            // a[0] == c[0], so the two head comparisons flip one another,
            // which contradicts one of them being strictly less.
            lemma_cmp_chars_flip(a[0], b[0]);
            assert(a[0] == c[0]);
            assert(cmp_chars(b[0], c[0]) == cmp_flip(cmp_chars(a[0], b[0])));
            assert(false);
        }
    }
}

/// Three-way comparison of optional names: absent orders first.
pub open spec fn cmp_name(a: Option<Seq<char>>, b: Option<Seq<char>>) -> Cmp {
    match (a, b) {
        (None, None) => Cmp::Equal,
        (None, Some(_)) => Cmp::Less,
        (Some(_), None) => Cmp::Greater,
        (Some(x), Some(y)) => cmp_chars(x, y),
    }
}

pub proof fn lemma_cmp_name_eq(a: Option<Seq<char>>, b: Option<Seq<char>>)
    ensures
        (cmp_name(a, b) == Cmp::Equal) <==> (a == b),
{
    match (a, b) {
        (Some(x), Some(y)) => lemma_cmp_chars_eq(x, y),
        _ => {},
    }
}

pub proof fn lemma_cmp_name_flip(a: Option<Seq<char>>, b: Option<Seq<char>>)
    ensures
        cmp_name(b, a) == cmp_flip(cmp_name(a, b)),
{
    match (a, b) {
        (Some(x), Some(y)) => lemma_cmp_chars_flip(x, y),
        _ => {},
    }
}

pub proof fn lemma_cmp_name_trans(a: Option<Seq<char>>, b: Option<Seq<char>>, c: Option<Seq<char>>)
    requires
        cmp_name(a, b) != Cmp::Greater,
        cmp_name(b, c) != Cmp::Greater,
    ensures
        cmp_name(a, c) != Cmp::Greater,
{
    match (a, b, c) {
        (Some(x), Some(y), Some(z)) => lemma_cmp_chars_trans(x, y, z),
        _ => {},
    }
}

/// Three-way comparison of games: name, then platform, then directory, then
/// genres, then launchers.
pub open spec fn cmp_game(a: GameView, b: GameView) -> Cmp {
    let c1 = cmp_name(a.name, b.name);
    if c1 != Cmp::Equal {
        c1
    } else {
        let c2 = cmp_platform(a.platform, b.platform);
        if c2 != Cmp::Equal {
            c2
        } else {
            let c3 = cmp_chars(a.directory, b.directory);
            if c3 != Cmp::Equal {
                c3
            } else {
                let c4 = cmp_genres(a.genres, b.genres);
                if c4 != Cmp::Equal {
                    c4
                } else {
                    cmp_strs(a.launchers, b.launchers)
                }
            }
        }
    }
}

/// `a` orders at or before `b`.
pub open spec fn game_le(a: GameView, b: GameView) -> bool {
    cmp_game(a, b) != Cmp::Greater
}

/// The order on games as a relation value, for `sorted_by`.
pub open spec fn game_le_fn() -> spec_fn(GameView, GameView) -> bool {
    |a: GameView, b: GameView| game_le(a, b)
}

pub proof fn lemma_cmp_game_eq(a: GameView, b: GameView)
    ensures
        (cmp_game(a, b) == Cmp::Equal) <==> (a == b),
{
    lemma_cmp_name_eq(a.name, b.name);
    lemma_cmp_platform(a.platform, b.platform);
    lemma_cmp_chars_eq(a.directory, b.directory);
    lemma_cmp_genres_eq(a.genres, b.genres);
    lemma_cmp_strs_eq(a.launchers, b.launchers);
    if cmp_game(a, b) == Cmp::Equal {
        assert(a =~= b);
    }
}

pub proof fn lemma_cmp_game_flip(a: GameView, b: GameView)
    ensures
        cmp_game(b, a) == cmp_flip(cmp_game(a, b)),
{
    lemma_cmp_name_eq(a.name, b.name);
    lemma_cmp_name_flip(a.name, b.name);
    lemma_cmp_platform(a.platform, b.platform);
    lemma_cmp_chars_eq(a.directory, b.directory);
    lemma_cmp_chars_flip(a.directory, b.directory);
    lemma_cmp_genres_eq(a.genres, b.genres);
    lemma_cmp_genres_flip(a.genres, b.genres);
    lemma_cmp_strs_eq(a.launchers, b.launchers);
    lemma_cmp_strs_flip(a.launchers, b.launchers);
}

pub proof fn lemma_game_le_trans(a: GameView, b: GameView, c: GameView)
    requires
        game_le(a, b),
        game_le(b, c),
    ensures
        game_le(a, c),
{
    lemma_cmp_name_eq(a.name, b.name);
    lemma_cmp_name_eq(a.name, c.name);
    lemma_cmp_name_flip(a.name, b.name);
    lemma_cmp_name_trans(a.name, b.name, c.name);
    if cmp_name(a.name, c.name) == Cmp::Less {
    } else {
        assert(a.name == c.name);
        if cmp_name(a.name, b.name) == Cmp::Less {
            assert(cmp_name(b.name, c.name) == Cmp::Greater);
            assert(false);
        }
        assert(a.name == b.name && b.name == c.name);
        lemma_cmp_platform(a.platform, b.platform);
        lemma_cmp_platform(a.platform, c.platform);
        lemma_cmp_platform(b.platform, c.platform);
        if cmp_platform(a.platform, c.platform) == Cmp::Less {
        } else {
            assert(a.platform == c.platform);
            if cmp_platform(a.platform, b.platform) == Cmp::Less {
                assert(cmp_platform(b.platform, c.platform) == Cmp::Greater);
                assert(false);
            }
            assert(a.platform == b.platform && b.platform == c.platform);
            lemma_cmp_chars_eq(a.directory, b.directory);
            lemma_cmp_chars_eq(a.directory, c.directory);
            lemma_cmp_chars_flip(a.directory, b.directory);
            lemma_cmp_chars_trans(a.directory, b.directory, c.directory);
            if cmp_chars(a.directory, c.directory) == Cmp::Less {
            } else {
                assert(a.directory == c.directory);
                if cmp_chars(a.directory, b.directory) == Cmp::Less {
                    assert(cmp_chars(b.directory, c.directory) == Cmp::Greater);
                    assert(false);
                }
                assert(a.directory == b.directory && b.directory == c.directory);
                lemma_cmp_genres_eq(a.genres, b.genres);
                lemma_cmp_genres_eq(a.genres, c.genres);
                lemma_cmp_genres_flip(a.genres, b.genres);
                lemma_cmp_genres_trans(a.genres, b.genres, c.genres);
                if cmp_genres(a.genres, c.genres) == Cmp::Less {
                } else {
                    assert(a.genres == c.genres);
                    if cmp_genres(a.genres, b.genres) == Cmp::Less {
                        assert(cmp_genres(b.genres, c.genres) == Cmp::Greater);
                        assert(false);
                    }
                    assert(a.genres == b.genres && b.genres == c.genres);
                    lemma_cmp_strs_trans(a.launchers, b.launchers, c.launchers);
                }
            }
        }
    }
}

/// The order on games is a total ordering: reflexive, antisymmetric,
/// transitive, and any two games are comparable.
pub proof fn lemma_game_le_total()
    ensures
        total_ordering(game_le_fn()),
{
    let leq = game_le_fn();
    assert forall|a: GameView| #[trigger] leq(a, a) by {
        lemma_cmp_game_eq(a, a);
    }
    assert forall|a: GameView, b: GameView| #[trigger] leq(a, b) && #[trigger] leq(b, a)
        implies a == b by {
        lemma_cmp_game_flip(a, b);
        lemma_cmp_game_eq(a, b);
    }
    assert forall|a: GameView, b: GameView, c: GameView|
        #[trigger] leq(a, b) && #[trigger] leq(b, c) implies leq(a, c) by {
        lemma_game_le_trans(a, b, c);
    }
    assert forall|a: GameView, b: GameView| !(#[trigger] leq(a, b)) implies leq(b, a) by {
        lemma_cmp_game_flip(a, b);
    }
}


proof fn lemma_cmp_chars_skip(a: Seq<char>, b: Seq<char>, i: int)
    requires
        0 <= i <= a.len(),
        i <= b.len(),
        forall|j: int| 0 <= j < i ==> a[j] == b[j],
    ensures
        cmp_chars(a, b) == cmp_chars(a.skip(i), b.skip(i)),
    decreases i,
{
    if i == 0 {
        assert(a.skip(0) =~= a);
        assert(b.skip(0) =~= b);
    } else {
        assert(a[0] == b[0]);
        lemma_cmp_chars_skip(a.drop_first(), b.drop_first(), i - 1);
        assert(a.drop_first().skip(i - 1) =~= a.skip(i));
        assert(b.drop_first().skip(i - 1) =~= b.skip(i));
    }
}

proof fn lemma_cmp_genres_skip(a: Seq<Genre>, b: Seq<Genre>, i: int)
    requires
        0 <= i <= a.len(),
        i <= b.len(),
        forall|j: int| 0 <= j < i ==> a[j] == b[j],
    ensures
        cmp_genres(a, b) == cmp_genres(a.skip(i), b.skip(i)),
    decreases i,
{
    if i == 0 {
        assert(a.skip(0) =~= a);
        assert(b.skip(0) =~= b);
    } else {
        assert(a[0] == b[0]);
        lemma_cmp_genres_skip(a.drop_first(), b.drop_first(), i - 1);
        assert(a.drop_first().skip(i - 1) =~= a.skip(i));
        assert(b.drop_first().skip(i - 1) =~= b.skip(i));
    }
}

proof fn lemma_cmp_strs_skip(a: Seq<Seq<char>>, b: Seq<Seq<char>>, i: int)
    requires
        0 <= i <= a.len(),
        i <= b.len(),
        forall|j: int| 0 <= j < i ==> a[j] == b[j],
    ensures
        cmp_strs(a, b) == cmp_strs(a.skip(i), b.skip(i)),
    decreases i,
{
    if i == 0 {
        assert(a.skip(0) =~= a);
        assert(b.skip(0) =~= b);
    } else {
        assert(a[0] == b[0]);
        lemma_cmp_chars_eq(a[0], b[0]);
        lemma_cmp_strs_skip(a.drop_first(), b.drop_first(), i - 1);
        assert(a.drop_first().skip(i - 1) =~= a.skip(i));
        assert(b.drop_first().skip(i - 1) =~= b.skip(i));
    }
}

/// Three-way comparison of two strings, as `cmp_chars` over the views.
pub fn str_cmp(a: &str, b: &str) -> (c: Cmp)
    ensures
        c == cmp_chars(a@, b@),
{
    let alen = a.unicode_len();
    let blen = b.unicode_len();
    let mut i: usize = 0;
    while i < alen && i < blen
        invariant
            alen == a@.len(),
            blen == b@.len(),
            i <= alen,
            i <= blen,
            forall|j: int| 0 <= j < i ==> a@[j] == b@[j],
        decreases alen - i,
    {
        let ca = a.get_char(i);
        let cb = b.get_char(i);
        if ca < cb {
            proof {
                lemma_cmp_chars_skip(a@, b@, i as int);
                assert(a@.skip(i as int)[0] == a@[i as int]);
                assert(b@.skip(i as int)[0] == b@[i as int]);
            }
            return Cmp::Less;
        }
        if cb < ca {
            proof {
                lemma_cmp_chars_skip(a@, b@, i as int);
                assert(a@.skip(i as int)[0] == a@[i as int]);
                assert(b@.skip(i as int)[0] == b@[i as int]);
            }
            return Cmp::Greater;
        }
        i = i + 1;
    }
    proof {
        lemma_cmp_chars_skip(a@, b@, i as int);
    }
    if alen < blen {
        Cmp::Less
    } else if blen < alen {
        Cmp::Greater
    } else {
        Cmp::Equal
    }
}

/// Three-way comparison of optional names, absent first.
fn name_cmp(a: &Option<String>, b: &Option<String>) -> (c: Cmp)
    ensures
        c == cmp_name(opt_str_view(*a), opt_str_view(*b)),
{
    match (a, b) {
        (None, None) => Cmp::Equal,
        (None, Some(_)) => Cmp::Less,
        (Some(_), None) => Cmp::Greater,
        (Some(x), Some(y)) => str_cmp(x.as_str(), y.as_str()),
    }
}

fn rank_of_platform(p: &Option<Platform>) -> (r: u8)
    ensures
        r as int == platform_rank(*p),
{
    match p {
        None => 0,
        Some(Platform::Native) => 1,
        Some(Platform::Wine) => 2,
    }
}

/// Three-way comparison of optional platforms by rank.
fn platform_cmp(a: &Option<Platform>, b: &Option<Platform>) -> (c: Cmp)
    ensures
        c == cmp_platform(*a, *b),
{
    let ra = rank_of_platform(a);
    let rb = rank_of_platform(b);
    if ra < rb {
        Cmp::Less
    } else if rb < ra {
        Cmp::Greater
    } else {
        Cmp::Equal
    }
}

fn rank_of_genre(g: Genre) -> (r: u8)
    ensures
        r as int == genre_rank(g),
{
    match g {
        Genre::Action => 0,
        Genre::Platformer => 1,
    }
}

/// Three-way comparison of genre lists, lexicographically by rank.
fn genres_cmp(a: &Vec<Genre>, b: &Vec<Genre>) -> (c: Cmp)
    ensures
        c == cmp_genres(a@, b@),
{
    let mut i: usize = 0;
    while i < a.len() && i < b.len()
        invariant
            i <= a.len(),
            i <= b.len(),
            forall|j: int| 0 <= j < i ==> a@[j] == b@[j],
        decreases a.len() - i,
    {
        let ra = rank_of_genre(a[i]);
        let rb = rank_of_genre(b[i]);
        if ra < rb {
            proof {
                lemma_cmp_genres_skip(a@, b@, i as int);
                assert(a@.skip(i as int)[0] == a@[i as int]);
                assert(b@.skip(i as int)[0] == b@[i as int]);
            }
            return Cmp::Less;
        }
        if rb < ra {
            proof {
                lemma_cmp_genres_skip(a@, b@, i as int);
                assert(a@.skip(i as int)[0] == a@[i as int]);
                assert(b@.skip(i as int)[0] == b@[i as int]);
            }
            return Cmp::Greater;
        }
        proof {
            assert(a@[i as int] == b@[i as int]);
        }
        i = i + 1;
    }
    proof {
        lemma_cmp_genres_skip(a@, b@, i as int);
    }
    if a.len() < b.len() {
        Cmp::Less
    } else if b.len() < a.len() {
        Cmp::Greater
    } else {
        Cmp::Equal
    }
}

/// Three-way comparison of string lists, lexicographically.
fn strs_cmp(a: &Vec<String>, b: &Vec<String>) -> (c: Cmp)
    ensures
        c == cmp_strs(strs_view(a@), strs_view(b@)),
{
    let mut i: usize = 0;
    while i < a.len() && i < b.len()
        invariant
            i <= a.len() == strs_view(a@).len(),
            i <= b.len() == strs_view(b@).len(),
            forall|j: int| 0 <= j < i ==> strs_view(a@)[j] == strs_view(b@)[j],
        decreases a.len() - i,
    {
        let c = str_cmp(a[i].as_str(), b[i].as_str());
        if !(c == Cmp::Equal) {
            proof {
                lemma_cmp_strs_skip(strs_view(a@), strs_view(b@), i as int);
                assert(strs_view(a@).skip(i as int)[0] == strs_view(a@)[i as int]);
                assert(strs_view(b@).skip(i as int)[0] == strs_view(b@)[i as int]);
            }
            return c;
        }
        proof {
            lemma_cmp_chars_eq(strs_view(a@)[i as int], strs_view(b@)[i as int]);
        }
        i = i + 1;
    }
    proof {
        lemma_cmp_strs_skip(strs_view(a@), strs_view(b@), i as int);
    }
    if a.len() < b.len() {
        Cmp::Less
    } else if b.len() < a.len() {
        Cmp::Greater
    } else {
        Cmp::Equal
    }
}

/// Three-way comparison of two games, as `cmp_game` over the views.
pub fn game_cmp(a: &Game, b: &Game) -> (c: Cmp)
    ensures
        c == cmp_game(a@, b@),
{
    let c1 = name_cmp(&a.name, &b.name);
    if !(c1 == Cmp::Equal) {
        return c1;
    }
    let c2 = platform_cmp(&a.platform, &b.platform);
    if !(c2 == Cmp::Equal) {
        return c2;
    }
    let c3 = str_cmp(a.directory.as_str(), b.directory.as_str());
    if !(c3 == Cmp::Equal) {
        return c3;
    }
    let c4 = genres_cmp(&a.genres, &b.genres);
    if !(c4 == Cmp::Equal) {
        return c4;
    }
    strs_cmp(&a.launchers, &b.launchers)
}

proof fn lemma_games_view_insert(s: Seq<Game>, i: int, g: Game)
    requires
        0 <= i <= s.len(),
    ensures
        games_view(s.insert(i, g)) =~= games_view(s).insert(i, g@),
{
    s.insert_ensures(i, g);
    games_view(s).insert_ensures(i, g@);
}

proof fn lemma_games_view_remove(s: Seq<Game>, i: int)
    requires
        0 <= i < s.len(),
    ensures
        games_view(s.remove(i)) =~= games_view(s).remove(i),
{
    s.remove_ensures(i);
    games_view(s).remove_ensures(i);
}

proof fn lemma_to_multiset_insert(s: Seq<GameView>, i: int, x: GameView)
    requires
        0 <= i <= s.len(),
    ensures
        s.insert(i, x).to_multiset() =~= s.to_multiset().insert(x),
{
    broadcast use vstd::seq_lib::group_to_multiset_ensures;
    broadcast use vstd::multiset::group_multiset_axioms;

    let l = s.subrange(0, i);
    let r = s.subrange(i, s.len() as int);
    assert(s =~= l + r);
    lemma_multiset_commutative(l.push(x), r);
    lemma_multiset_commutative(l, r);
    assert(l.push(x).to_multiset() =~= l.to_multiset().insert(x));
}

/// Sorts games into the catalog order: the result is ordered by `game_le`
/// and holds exactly the input games.
pub fn sort_games(games: Vec<Game>) -> (r: Vec<Game>)
    ensures
        sorted_by(games_view(r@), game_le_fn()),
        games_view(r@).to_multiset() == games_view(games@).to_multiset(),
{
    let ghost orig = games_view(games@);
    let mut input = games;
    let mut out: Vec<Game> = Vec::new();
    proof {
        broadcast use vstd::seq_lib::group_to_multiset_ensures;
        broadcast use vstd::multiset::group_multiset_axioms;

        assert(games_view(out@) =~= Seq::<GameView>::empty());
        assert forall|x: GameView|
            games_view(out@).to_multiset().add(games_view(input@).to_multiset()).count(x)
                == orig.to_multiset().count(x) by {
            assert(!games_view(out@).contains(x));
        }
        assert(games_view(out@).to_multiset().add(games_view(input@).to_multiset())
            =~= orig.to_multiset());
    }
    while input.len() > 0
        invariant
            sorted_by(games_view(out@), game_le_fn()),
            games_view(out@).to_multiset().add(games_view(input@).to_multiset())
                == orig.to_multiset(),
        decreases input.len(),
    {
        broadcast use vstd::multiset::group_multiset_axioms;

        let ghost old_input = input@;
        let ghost old_out = out@;
        let g = input.remove(0);
        proof {
            lemma_games_view_remove(old_input, 0);
            games_view(old_input).to_multiset_ensures();
            assert(games_view(old_input)[0] == g@);
            assert(games_view(input@).to_multiset() =~= games_view(old_input).to_multiset()
                .remove(g@));
        }
        let mut pos: usize = 0;
        let mut scanning = true;
        while scanning && pos < out.len()
            invariant
                pos <= out.len(),
                forall|j: int| 0 <= j < pos ==> game_le(games_view(out@)[j], g@),
                !scanning ==> pos < out.len() && cmp_game(games_view(out@)[pos as int], g@)
                    == Cmp::Greater,
            decreases out.len() - pos + (if scanning { 1int } else { 0int }),
        {
            let cg = game_cmp(&out[pos], &g);
            if cg == Cmp::Greater {
                scanning = false;
            } else {
                pos = pos + 1;
            }
        }
        proof {
            if pos < out@.len() {
                lemma_cmp_game_flip(games_view(out@)[pos as int], g@);
            }
        }
        let ghost searched = out@;
        out.insert(pos, g);
        proof {
            lemma_games_view_insert(searched, pos as int, g);
            games_view(searched).insert_ensures(pos as int, g@);
            let ov = games_view(searched);
            let nv = games_view(out@);
            assert(nv =~= ov.insert(pos as int, g@));
            // Sortedness of the extended run.
            assert forall|x: int, y: int| 0 <= x < y < nv.len() implies #[trigger] game_le_fn()(
                nv[x],
                nv[y],
            ) by {
                if y < pos {
                    assert(game_le_fn()(ov[x], ov[y]));
                } else if x < pos && y == pos {
                    assert(game_le(ov[x], g@));
                } else if x < pos && y > pos {
                    assert(game_le_fn()(ov[x], ov[y - 1]));
                } else if x == pos {
                    if pos < ov.len() {
                        assert(game_le(g@, ov[pos as int]));
                        if y - 1 > pos {
                            assert(game_le_fn()(ov[pos as int], ov[y - 1]));
                            lemma_game_le_trans(g@, ov[pos as int], ov[y - 1]);
                        }
                        assert(game_le(g@, ov[y - 1]));
                    }
                } else {
                    assert(game_le_fn()(ov[x - 1], ov[y - 1]));
                }
            }
            // The multiset bookkeeping.
            lemma_to_multiset_insert(ov, pos as int, g@);
            broadcast use vstd::seq_lib::group_to_multiset_ensures;

            assert(games_view(old_input).contains(g@)) by {
                assert(games_view(old_input)[0] == g@);
            }
            assert(games_view(old_input).to_multiset().count(g@) > 0);
            assert(games_view(out@).to_multiset().add(games_view(input@).to_multiset())
                =~= orig.to_multiset());
        }
    }
    proof {
        broadcast use vstd::seq_lib::group_to_multiset_ensures;
        broadcast use vstd::multiset::group_multiset_axioms;

        assert(games_view(input@) =~= Seq::<GameView>::empty());
        assert forall|x: GameView|
            games_view(out@).to_multiset().add(games_view(input@).to_multiset()).count(x)
                == games_view(out@).to_multiset().count(x) by {
            assert(!games_view(input@).contains(x));
        }
        assert(games_view(out@).to_multiset() =~= orig.to_multiset());
    }
    out
}


/// Two listings that are both sorted by the catalog order and hold the same
/// games are the same listing: together with the contract of `list_games`,
/// querying an unchanged catalog twice gives identical output.
pub proof fn lemma_sorted_games_unique(x: Seq<GameView>, y: Seq<GameView>)
    requires
        sorted_by(x, game_le_fn()),
        sorted_by(y, game_le_fn()),
        x.to_multiset() == y.to_multiset(),
    ensures
        x == y,
{
    lemma_game_le_total();
    vstd::seq_lib::lemma_sorted_unique(x, y, game_le_fn());
    assert(x =~= y);
}

} // verus!
