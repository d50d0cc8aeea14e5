//! A catalog of locally installed games. The library scans a root directory
//! handed in as plain listings, classifies each game's platform from its
//! launcher files, filters and orders the catalog deterministically, and
//! picks a single launcher to run. Reading directories, spawning processes
//! and all other I/O belong to the front end around it.

use vstd::prelude::*;
use vstd::relations::sorted_by;
use crate::filesystem::{
    dirs_view, extension, file_name, spec_extension, spec_file_name, DirListing, DirListingView,
};
use crate::game::{games_view, spec_build_game, spec_display_name, Game, GameView};
use crate::order::{
    game_le, game_le_fn, lemma_cmp_game_eq, lemma_game_le_total, lemma_sorted_games_unique,
    sort_games,
};
use crate::strings::{
    chars_contain, chars_match_at, chars_start_with, lower_of, str_contains, str_eq,
    str_starts_with, strs_view, to_lowercase,
};

pub mod cli;
pub mod filesystem;
pub mod game;
pub mod order;
pub mod strings;

verus! {

/// Errors the catalog queries report.
#[derive(Debug)]
pub enum Error {
    /// No game name matched the pattern.
    GameNotFound { pattern: String },
    /// The matched game offers no launcher candidate.
    LauncherNotFound { game: String },
}

/// A shell for which the front end can generate completion scripts.
#[derive(Debug, Clone, Copy, PartialEq, Eq, Structural)]
pub enum Shell {
    Bash,
    Elvish,
    Fish,
    Zsh,
}

/// A directory is ignored when one of its children is a file named exactly
/// `.rusteam-ignore`.
pub open spec fn spec_ignored(children: Seq<Seq<char>>) -> bool {
    exists|i: int|
        0 <= i < children.len() && spec_file_name(children[i]) == Some(".rusteam-ignore"@)
}

/// Whether the children include the ignore marker file.
pub fn ignore(children: &Vec<String>) -> (r: bool)
    ensures
        r == spec_ignored(strs_view(children@)),
{
    let mut i: usize = 0;
    while i < children.len()
        invariant
            i <= children.len(),
            forall|j: int|
                0 <= j < i ==> spec_file_name(strs_view(children@)[j]) != Some(
                    ".rusteam-ignore"@,
                ),
        decreases children.len() - i,
    {
        match file_name(children[i].as_str()) {
            Some(f) => {
                if str_eq(f.as_str(), ".rusteam-ignore") {
                    proof {
                        assert(spec_file_name(strs_view(children@)[i as int]) == Some(
                            ".rusteam-ignore"@,
                        ));
                    }
                    return true;
                }
            },
            None => {},
        }
        i = i + 1;
    }
    false
}

/// The games of a catalog listing: one per directory that is not ignored, in
/// the order given.
pub open spec fn spec_scan(ds: Seq<DirListingView>) -> Seq<GameView>
    decreases ds.len(),
{
    if ds.len() == 0 {
        Seq::empty()
    } else if spec_ignored(ds.last().children) {
        spec_scan(ds.drop_last())
    } else {
        spec_scan(ds.drop_last()).push(spec_build_game(ds.last().path, ds.last().children))
    }
}

/// Builds one game per non-ignored directory, in listing order.
pub fn scan(dirs: Vec<DirListing>) -> (games: Vec<Game>)
    ensures
        games_view(games@) == spec_scan(dirs_view(dirs@)),
{
    let mut games: Vec<Game> = Vec::new();
    let mut i: usize = 0;
    while i < dirs.len()
        invariant
            i <= dirs.len(),
            games_view(games@) == spec_scan(dirs_view(dirs@).take(i as int)),
        decreases dirs.len() - i,
    {
        let ghost prev = games@;
        let ign = ignore(&dirs[i].children);
        if !ign {
            let game = Game::from_path(dirs[i].path.clone(), &dirs[i].children);
            games.push(game);
        }
        proof {
            let dv = dirs_view(dirs@);
            assert(dv.take(i + 1).drop_last() =~= dv.take(i as int));
            assert(dv.take(i + 1).last() == dirs@[i as int]@);
            if !spec_ignored(dv[i as int].children) {
                assert(games_view(games@) =~= games_view(prev).push(
                    spec_build_game(dv[i as int].path, dv[i as int].children),
                ));
            }
        }
        i = i + 1;
    }
    proof {
        assert(dirs_view(dirs@).take(dirs@.len() as int) =~= dirs_view(dirs@));
    }
    games
}

/// Case-insensitive substring match, through lowercase folding.
pub open spec fn spec_matches(haystack: Seq<char>, needle: Seq<char>) -> bool {
    chars_contain(lower_of(haystack), lower_of(needle))
}

/// Whether the lowercased needle occurs in the lowercased haystack. An
/// empty needle matches everything.
pub fn matches(haystack: &str, needle: &str) -> (r: bool)
    ensures
        r == spec_matches(haystack@, needle@),
        needle@.len() == 0 ==> r,
{
    let h = to_lowercase(haystack);
    let n = to_lowercase(needle);
    let r = str_contains(h.as_str(), n.as_str());
    proof {
        if needle@.len() == 0 {
            assert(h@.subrange(0, 0) =~= n@);
            assert(chars_match_at(h@, n@, 0));
        }
    }
    r
}

/// The games whose name matches the pattern, in order.
pub open spec fn spec_matching(games: Seq<GameView>, pattern: Seq<char>) -> Seq<GameView>
    decreases games.len(),
{
    if games.len() == 0 {
        Seq::empty()
    } else {
        let rest = spec_matching(games.drop_last(), pattern);
        if games.last().name matches Some(n) && spec_matches(n, pattern) {
            rest.push(games.last())
        } else {
            rest
        }
    }
}

/// The games that have a name, in order.
pub open spec fn spec_named(games: Seq<GameView>) -> Seq<GameView>
    decreases games.len(),
{
    if games.len() == 0 {
        Seq::empty()
    } else {
        let rest = spec_named(games.drop_last());
        if games.last().name is Some {
            rest.push(games.last())
        } else {
            rest
        }
    }
}

/// Scans the listings, keeps the games whose name matches the pattern
/// (case-insensitive substring; unnamed games never match), and sorts them
/// into the deterministic catalog order. An empty pattern keeps every named
/// game.
pub fn list_games(dirs: Vec<DirListing>, pattern: &str) -> (games: Vec<Game>)
    ensures
        sorted_by(games_view(games@), game_le_fn()),
        games_view(games@) == spec_matching(spec_scan(dirs_view(dirs@)), pattern@).sort_by(
            game_le_fn(),
        ),
        games_view(games@).to_multiset() == spec_matching(
            spec_scan(dirs_view(dirs@)),
            pattern@,
        ).to_multiset(),
        pattern@.len() == 0 ==> spec_matching(spec_scan(dirs_view(dirs@)), pattern@)
            == spec_named(spec_scan(dirs_view(dirs@))),
{
    let ghost dv = dirs_view(dirs@);
    let all = scan(dirs);
    let ghost sv = spec_scan(dv);
    let mut input = all;
    let mut kept: Vec<Game> = Vec::new();
    let ghost mut k: int = 0;
    proof {
        assert(games_view(input@) =~= sv.skip(0));
        assert(sv.take(0) =~= Seq::<GameView>::empty());
    }
    while input.len() > 0
        invariant
            0 <= k <= sv.len(),
            games_view(input@) == sv.skip(k),
            games_view(kept@) == spec_matching(sv.take(k), pattern@),
            pattern@.len() == 0 ==> games_view(kept@) == spec_named(sv.take(k)),
        decreases input.len(),
    {
        let ghost old_input = input@;
        let ghost old_kept = kept@;
        let g = input.remove(0);
        let keep = match &g.name {
            Some(n) => matches(n.as_str(), pattern),
            None => false,
        };
        if keep {
            kept.push(g);
        }
        proof {
            old_input.remove_ensures(0);
            assert(games_view(old_input) == sv.skip(k));
            assert(games_view(old_input).len() == old_input.len());
            assert(old_input.len() > 0);
            assert(sv.skip(k).len() == sv.len() - k);
            assert(k < sv.len());
            assert(games_view(old_input)[0] == g@);
            assert(sv.skip(k)[0] == sv[k]);
            assert(g@ == sv[k]);
            assert(games_view(input@) =~= sv.skip(k + 1)) by {
                assert forall|j: int| 0 <= j < input@.len() implies games_view(input@)[j] == sv.skip(
                    k + 1,
                )[j] by {
                    assert(input@[j] == old_input[j + 1]);
                    assert(games_view(input@)[j] == games_view(old_input)[j + 1]);
                    assert(0 <= j + 1 < sv.skip(k).len());
                    assert(games_view(old_input)[j + 1] == sv.skip(k)[j + 1]);
                    assert(sv.skip(k)[j + 1] == sv[k + 1 + j]);
                    assert(sv.skip(k + 1)[j] == sv[k + 1 + j]);
                }
            }
            assert(sv.take(k + 1).drop_last() =~= sv.take(k));
            assert(sv.take(k + 1).last() == sv[k]);
            if keep {
                assert(games_view(kept@) =~= games_view(old_kept).push(g@));
            }
            k = k + 1;
        }
    }
    proof {
        assert(k == sv.len());
        assert(sv.take(k) =~= sv);
    }
    let sorted = sort_games(kept);
    proof {
        lemma_game_le_total();
        let cands = spec_matching(sv, pattern@);
        cands.lemma_sort_by_ensures(game_le_fn());
        lemma_sorted_games_unique(games_view(sorted@), cands.sort_by(game_le_fn()));
    }
    sorted
}

/// The first launcher of the game, or `LauncherNotFound` when it has none.
pub fn choose_launcher(game: &Game) -> (r: Result<String, Error>)
    ensures
        match r {
            Ok(l) => game@.launchers.len() > 0 && l@ == game@.launchers[0],
            Err(e) => game@.launchers.len() == 0 && (e matches Error::LauncherNotFound {
                game: gm,
            } && gm@ == spec_display_name(game@)),
        },
{
    if game.launchers.len() > 0 {
        Ok(game.launchers[0].clone())
    } else {
        Err(Error::LauncherNotFound { game: game.display_name() })
    }
}

/// The first game, in catalog order, whose name matches the pattern, or
/// `GameNotFound` when none does.
pub fn find_game(dirs: Vec<DirListing>, pattern: &str) -> (r: Result<Game, Error>)
    ensures
        ({
            let cands = spec_matching(spec_scan(dirs_view(dirs@)), pattern@);
            match r {
                Ok(g) => cands.len() > 0 && g@ == cands.sort_by(game_le_fn())[0]
                    && cands.to_multiset().contains(g@) && forall|x: GameView|
                    cands.to_multiset().contains(x) ==> game_le(g@, x),
                Err(e) => cands.len() == 0 && (e matches Error::GameNotFound { pattern: p } && p@
                    == pattern@),
            }
        }),
{
    let ghost cands = spec_matching(spec_scan(dirs_view(dirs@)), pattern@);
    let mut games = list_games(dirs, pattern);
    let ghost lv = games_view(games@);
    proof {
        broadcast use vstd::seq_lib::group_to_multiset_ensures;

    }
    if games.len() > 0 {
        let g = games.remove(0);
        proof {
            broadcast use vstd::seq_lib::group_to_multiset_ensures;

            assert(g@ == lv[0]);
            assert(lv.contains(g@)) by {
                assert(lv[0] == g@);
            }
            assert(cands.to_multiset().contains(g@));
            assert forall|x: GameView| cands.to_multiset().contains(x) implies game_le(
                g@,
                x,
            ) by {
                assert(lv.to_multiset().contains(x));
                assert(lv.contains(x));
                let i = choose|i: int| 0 <= i < lv.len() && lv[i] == x;
                if i == 0 {
                    lemma_cmp_game_eq(g@, x);
                } else {
                    assert(game_le_fn()(lv[0], lv[i]));
                }
            }
        }
        Ok(g)
    } else {
        proof {
            broadcast use vstd::seq_lib::group_to_multiset_ensures;

            assert(lv.len() == 0);
            assert(cands.to_multiset().len() == lv.to_multiset().len());
            assert(cands.len() == 0);
        }
        Err(Error::GameNotFound { pattern: String::from_str(pattern) })
    }
}

/// An installer: a `sh` file whose name contains `install` or starts with
/// `gog_`.
pub open spec fn spec_is_installer(p: Seq<char>) -> bool {
    &&& spec_extension(p) == Some("sh"@)
    &&& (spec_file_name(p) matches Some(f) && (chars_contain(f, "install"@) || chars_start_with(
        f,
        "gog_"@,
    )))
}

/// Classifies one file as an installer, as `spec_is_installer`.
pub fn is_installer(filepath: &str) -> (r: bool)
    ensures
        r == spec_is_installer(filepath@),
{
    match extension(filepath) {
        None => false,
        Some(e) => {
            if !str_eq(e.as_str(), "sh") {
                return false;
            }
            match file_name(filepath) {
                None => {
                    // Unreachable: a path with an extension has a final
                    // component.
                    proof {
                        assert(false);
                    }
                    false
                },
                Some(f) => str_contains(f.as_str(), "install") || str_starts_with(
                    f.as_str(),
                    "gog_",
                ),
            }
        },
    }
}

/// The children that classify as installers, in listing order.
pub open spec fn spec_installers(children: Seq<Seq<char>>) -> Seq<Seq<char>>
    decreases children.len(),
{
    if children.len() == 0 {
        Seq::empty()
    } else if spec_is_installer(children.last()) {
        spec_installers(children.drop_last()).push(children.last())
    } else {
        spec_installers(children.drop_last())
    }
}

/// Selects the installers among a directory's children, in listing order:
/// what an install run executes, one after the other.
pub fn installers(children: &Vec<String>) -> (r: Vec<String>)
    ensures
        strs_view(r@) == spec_installers(strs_view(children@)),
{
    let mut out: Vec<String> = Vec::new();
    let mut i: usize = 0;
    while i < children.len()
        invariant
            i <= children.len(),
            strs_view(out@) == spec_installers(strs_view(children@).take(i as int)),
        decreases children.len() - i,
    {
        let ghost prev = out@;
        if is_installer(children[i].as_str()) {
            out.push(children[i].clone());
        }
        proof {
            let cs = strs_view(children@);
            assert(cs.take(i + 1).drop_last() =~= cs.take(i as int));
            assert(cs.take(i + 1).last() == children@[i as int]@);
            if spec_is_installer(cs.take(i + 1).last()) {
                assert(strs_view(out@) =~= strs_view(prev).push(children@[i as int]@));
            }
        }
        i = i + 1;
    }
    proof {
        assert(strs_view(children@).take(children@.len() as int) =~= strs_view(children@));
    }
    out
}


/// A directory whose children include the ignore marker contributes no game:
/// the scan of a listing equals the scan with that directory left out.
pub proof fn lemma_ignored_excluded(ds: Seq<DirListingView>, i: int)
    requires
        0 <= i < ds.len(),
        spec_ignored(ds[i].children),
    ensures
        spec_scan(ds) == spec_scan(ds.remove(i)),
    decreases ds.len(),
{
    if i == ds.len() - 1 {
        assert(ds.remove(i) =~= ds.drop_last());
    } else {
        lemma_ignored_excluded(ds.drop_last(), i);
        assert(ds.drop_last()[i] == ds[i]);
        assert(ds.remove(i).drop_last() =~= ds.drop_last().remove(i));
        assert(ds.remove(i).last() == ds.last());
        assert(ds.remove(i).len() == ds.len() - 1 > 0);
    }
}

} // verus!
