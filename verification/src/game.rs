//! Games: launcher classification, platform inference, and the construction
//! of a `Game` from a directory and its listed children.

use vstd::prelude::*;
use crate::filesystem::{
    extension, file_name, has_same_name_as_parent_dir, spec_extension, spec_file_name,
    spec_same_name_as_parent,
};
use crate::strings::{chars_contain, opt_str_view, str_contains, str_eq, strs_view};

verus! {

/// The runtime environment a launcher requires. `Native` orders before
/// `Wine` so that query results sort deterministically.
#[derive(Debug, Clone, Copy, PartialEq, Eq, Structural)]
pub enum Platform {
    Native,
    Wine,
}

/// A coarse kind of game. Not inferred yet: every scanned game gets none.
#[derive(Debug, Clone, Copy, PartialEq, Eq, Structural)]
pub enum Genre {
    Action,
    Platformer,
}

/// A game found in the catalog: the directory that holds it, its name (the
/// directory's final component), the launcher candidates among its children
/// in listing order, and the single platform all launchers agree on, if any.
#[derive(Debug)]
pub struct Game {
    pub name: Option<String>,
    pub platform: Option<Platform>,
    pub directory: String,
    pub genres: Vec<Genre>,
    pub launchers: Vec<String>,
}

/// The mathematical content of a `Game`.
#[verifier::ext_equal]
pub struct GameView {
    pub name: Option<Seq<char>>,
    pub platform: Option<Platform>,
    pub directory: Seq<char>,
    pub genres: Seq<Genre>,
    pub launchers: Seq<Seq<char>>,
}

impl View for Game {
    type V = GameView;

    open spec fn view(&self) -> GameView {
        GameView {
            name: opt_str_view(self.name),
            platform: self.platform,
            directory: self.directory@,
            genres: self.genres@,
            launchers: strs_view(self.launchers@),
        }
    }
}

/// The views of a sequence of games.
pub open spec fn games_view(s: Seq<Game>) -> Seq<GameView> {
    s.map_values(|g: Game| g@)
}

/// The path's extension marks a native launcher: `sh`, `x86` or `x86_64`.
pub open spec fn spec_is_native(p: Seq<char>) -> bool {
    ||| spec_extension(p) == Some("sh"@)
    ||| spec_extension(p) == Some("x86"@)
    ||| spec_extension(p) == Some("x86_64"@)
}

/// The path's extension marks a launcher that needs Wine: `exe`.
pub open spec fn spec_is_wine(p: Seq<char>) -> bool {
    spec_extension(p) == Some("exe"@)
}

/// The path's final component contains the substring `uninstall`.
pub open spec fn spec_is_uninstall(p: Seq<char>) -> bool {
    match spec_file_name(p) {
        Some(f) => chars_contain(f, "uninstall"@),
        None => false,
    }
}

/// A launcher candidate: not an uninstaller, and either a native launcher, a
/// Wine launcher, or a file named like its parent directory.
pub open spec fn spec_is_launcher(p: Seq<char>) -> bool {
    &&& !spec_is_uninstall(p)
    &&& (spec_is_native(p) || spec_is_wine(p) || spec_same_name_as_parent(p))
}

/// The platform a single launcher requires, if its extension tells.
pub open spec fn spec_platform(p: Seq<char>) -> Option<Platform> {
    if spec_is_native(p) {
        Some(Platform::Native)
    } else if spec_is_wine(p) {
        Some(Platform::Wine)
    } else {
        None
    }
}

/// The platform all launchers agree on: `None` when the list is empty, when
/// the first launcher's platform is undetermined, or when any launcher
/// disagrees with the first.
pub open spec fn spec_same_platform(ls: Seq<Seq<char>>) -> Option<Platform> {
    if ls.len() == 0 {
        None
    } else {
        match spec_platform(ls[0]) {
            None => None,
            Some(p) => if forall|i: int| 0 <= i < ls.len() ==> spec_platform(ls[i]) == Some(p) {
                Some(p)
            } else {
                None
            },
        }
    }
}

/// The children that classify as launcher candidates, in listing order.
pub open spec fn spec_launchers(children: Seq<Seq<char>>) -> Seq<Seq<char>>
    decreases children.len(),
{
    if children.len() == 0 {
        Seq::empty()
    } else if spec_is_launcher(children.last()) {
        spec_launchers(children.drop_last()).push(children.last())
    } else {
        spec_launchers(children.drop_last())
    }
}

/// The game a directory with the given children becomes.
pub open spec fn spec_build_game(directory: Seq<char>, children: Seq<Seq<char>>) -> GameView {
    GameView {
        name: spec_file_name(directory),
        platform: spec_same_platform(spec_launchers(children)),
        directory: directory,
        genres: Seq::empty(),
        launchers: spec_launchers(children),
    }
}

/// The game's name, or a fixed phrase when it has none.
pub open spec fn spec_display_name(g: GameView) -> Seq<char> {
    match g.name {
        Some(n) => n,
        None => "a game with no name"@,
    }
}

impl Game {
    /// Builds the game for `directory`, whose immediate children (absolute
    /// paths, in listing order) are handed in as `children`.
    pub fn from_path(directory: String, children: &Vec<String>) -> (g: Game)
        ensures
            g@ == spec_build_game(directory@, strs_view(children@)),
    {
        let (platform, launchers) = Self::find_launchers(children);
        let name = Self::basename(directory.as_str());
        let g = Game { name, genres: Vec::new(), platform, launchers, directory };
        proof {
            assert(g@ =~= spec_build_game(g.directory@, strs_view(children@)));
        }
        g
    }

    /// Selects the launcher candidates among the children and infers the
    /// common platform.
    pub fn find_launchers(children: &Vec<String>) -> (r: (Option<Platform>, Vec<String>))
        ensures
            strs_view(r.1@) == spec_launchers(strs_view(children@)),
            r.0 == spec_same_platform(spec_launchers(strs_view(children@))),
    {
        let mut out: Vec<String> = Vec::new();
        let mut i: usize = 0;
        while i < children.len()
            invariant
                i <= children.len(),
                strs_view(out@) == spec_launchers(strs_view(children@).take(i as int)),
            decreases children.len() - i,
        {
            let ghost prev = out@;
            if Self::is_launcher(children[i].as_str()) {
                out.push(children[i].clone());
            }
            proof {
                let cs = strs_view(children@);
                assert(cs.take(i + 1).drop_last() =~= cs.take(i as int));
                assert(cs.take(i + 1).last() == children@[i as int]@);
                if spec_is_launcher(cs.take(i + 1).last()) {
                    assert(strs_view(out@) =~= strs_view(prev).push(children@[i as int]@));
                }
            }
            i = i + 1;
        }
        proof {
            assert(strs_view(children@).take(children@.len() as int) =~= strs_view(children@));
        }
        let platform = Self::same_platform(&out);
        (platform, out)
    }

    /// The platform all of `launchers` agree on, as `spec_same_platform`.
    pub fn same_platform(launchers: &Vec<String>) -> (r: Option<Platform>)
        ensures
            r == spec_same_platform(strs_view(launchers@)),
    {
        if launchers.len() == 0 {
            return None;
        }
        match Self::platform(launchers[0].as_str()) {
            None => None,
            Some(p) => {
                let mut i: usize = 0;
                while i < launchers.len()
                    invariant
                        0 < launchers.len() == strs_view(launchers@).len(),
                        spec_platform(strs_view(launchers@)[0]) == Some(p),
                        i <= launchers.len(),
                        forall|j: int|
                            0 <= j < i ==> spec_platform(strs_view(launchers@)[j]) == Some(p),
                    decreases launchers.len() - i,
                {
                    let ghost ls = strs_view(launchers@);
                    match Self::platform(launchers[i].as_str()) {
                        Some(q) => {
                            if !(q == p) {
                                proof {
                                    assert(ls[i as int] == launchers@[i as int]@);
                                    assert(spec_platform(ls[i as int]) == Some(q));
                                    assert(spec_platform(ls[i as int]) != Some(p));
                                }
                                return None;
                            }
                        },
                        None => {
                            proof {
                                assert(ls[i as int] == launchers@[i as int]@);
                                assert(spec_platform(ls[i as int]) != Some(p));
                            }
                            return None;
                        },
                    }
                    i = i + 1;
                }
                Some(p)
            },
        }
    }

    /// The platform of one file, read off its extension.
    pub fn platform(file: &str) -> (r: Option<Platform>)
        ensures
            r == spec_platform(file@),
    {
        if Self::is_native(file) {
            Some(Platform::Native)
        } else if Self::is_wine(file) {
            Some(Platform::Wine)
        } else {
            None
        }
    }

    /// A launcher candidate: not an uninstaller, and native, Wine, or named
    /// like its parent directory.
    pub fn is_launcher(filepath: &str) -> (r: bool)
        ensures
            r == spec_is_launcher(filepath@),
    {
        !Self::is_uninstall(filepath) && (Self::is_native(filepath) || Self::is_wine(filepath)
            || has_same_name_as_parent_dir(filepath))
    }

    /// The file's name contains the substring `uninstall`.
    pub fn is_uninstall(file: &str) -> (r: bool)
        ensures
            r == spec_is_uninstall(file@),
    {
        match file_name(file) {
            None => false,
            Some(f) => str_contains(f.as_str(), "uninstall"),
        }
    }

    /// The extension marks a native launcher.
    pub fn is_native(file: &str) -> (r: bool)
        ensures
            r == spec_is_native(file@),
    {
        match extension(file) {
            None => false,
            Some(e) => str_eq(e.as_str(), "sh") || str_eq(e.as_str(), "x86") || str_eq(
                e.as_str(),
                "x86_64",
            ),
        }
    }

    /// The extension marks a launcher that needs Wine.
    pub fn is_wine(file: &str) -> (r: bool)
        ensures
            r == spec_is_wine(file@),
    {
        match extension(file) {
            None => false,
            Some(e) => str_eq(e.as_str(), "exe"),
        }
    }

    /// The final component of `directory`: the name a game there would get.
    pub fn basename(directory: &str) -> (r: Option<String>)
        ensures
            opt_str_view(r) == spec_file_name(directory@),
    {
        file_name(directory)
    }

    /// The game's name, or a fixed phrase when it has none.
    pub fn display_name(&self) -> (r: String)
        ensures
            r@ == spec_display_name(self@),
    {
        match &self.name {
            Some(n) => n.clone(),
            None => String::from_str("a game with no name"),
        }
    }
}


/// An uninstaller is never a launcher candidate, whatever its extension and
/// whether or not it is named like its parent directory.
pub proof fn lemma_uninstaller_not_candidate(p: Seq<char>)
    requires
        spec_is_uninstall(p),
    ensures
        !spec_is_launcher(p),
{
}

/// A directory whose single child carries the `sh` extension and is not an
/// uninstaller — a file `D/D.sh` named like its directory, say — builds a
/// game on platform `Native`.
pub proof fn lemma_single_native_launcher(directory: Seq<char>, child: Seq<char>)
    requires
        spec_extension(child) == Some("sh"@),
        !spec_is_uninstall(child),
    ensures
        spec_build_game(directory, seq![child]).platform == Some(Platform::Native),
        spec_build_game(directory, seq![child]).launchers == seq![child],
{
    let cs = seq![child];
    assert(spec_is_native(child));
    assert(spec_is_launcher(child));
    assert(spec_launchers(Seq::<Seq<char>>::empty()) == Seq::<Seq<char>>::empty());
    assert(cs.drop_last() =~= Seq::<Seq<char>>::empty());
    assert(cs.last() == child);
    assert(spec_launchers(cs) == spec_launchers(cs.drop_last()).push(child));
    assert(spec_launchers(cs) =~= cs);
    assert(spec_launchers(cs) == cs);
    assert(spec_platform(cs[0]) == Some(Platform::Native));
    assert(spec_same_platform(cs) == Some(Platform::Native));
}

/// A directory holding launcher candidates of both platforms builds a game
/// with no platform.
pub proof fn lemma_mixed_platforms(directory: Seq<char>, native: Seq<char>, wine: Seq<char>)
    requires
        spec_is_native(native),
        !spec_is_uninstall(native),
        spec_is_wine(wine),
        !spec_is_uninstall(wine),
    ensures
        spec_build_game(directory, seq![native, wine]).platform is None,
{
    proof_platforms_differ(native, wine);
    let cs = seq![native, wine];
    assert(spec_is_launcher(native));
    assert(spec_is_launcher(wine));
    assert(spec_launchers(Seq::<Seq<char>>::empty()) == Seq::<Seq<char>>::empty());
    assert(seq![native].drop_last() =~= Seq::<Seq<char>>::empty());
    assert(seq![native].last() == native);
    assert(spec_launchers(seq![native]) == spec_launchers(
        seq![native].drop_last(),
    ).push(native));
    assert(spec_launchers(seq![native]) =~= seq![native]);
    assert(cs.drop_last() =~= seq![native]);
    assert(cs.last() == wine);
    assert(spec_launchers(cs) == spec_launchers(cs.drop_last()).push(wine));
    assert(spec_launchers(cs) =~= cs);
    assert(spec_launchers(cs) == cs);
    let ls = spec_launchers(cs);
    assert(ls[0] == native && ls[1] == wine);
    assert(spec_platform(ls[1]) != Some(Platform::Native));
    assert(spec_same_platform(ls) is None);
}

/// A native and a Wine launcher never agree on a platform: their extensions
/// differ.
proof fn proof_platforms_differ(native: Seq<char>, wine: Seq<char>)
    requires
        spec_is_native(native),
        spec_is_wine(wine),
    ensures
        spec_platform(native) == Some(Platform::Native),
        spec_platform(wine) == Some(Platform::Wine),
{
    reveal_strlit("sh");
    reveal_strlit("x86");
    reveal_strlit("x86_64");
    reveal_strlit("exe");
    assert("sh"@.len() == 2 && "exe"@.len() == 3 && "x86"@.len() == 3 && "x86_64"@.len() == 6);
    assert("x86"@[0] == 'x' && "exe"@[0] == 'e');
    assert("sh"@ != "exe"@ && "x86"@ != "exe"@ && "x86_64"@ != "exe"@);
    assert(!spec_is_wine(native));
}

/// A directory with no qualifying children builds a game with no launchers
/// and no platform.
pub proof fn lemma_no_launchers(directory: Seq<char>, children: Seq<Seq<char>>)
    requires
        forall|i: int| 0 <= i < children.len() ==> !spec_is_launcher(children[i]),
    ensures
        spec_build_game(directory, children).launchers.len() == 0,
        spec_build_game(directory, children).platform is None,
    decreases children.len(),
{
    if children.len() == 0 {
    } else {
        assert(!spec_is_launcher(children.last()));
        assert forall|i: int| 0 <= i < children.drop_last().len()
            implies !spec_is_launcher(children.drop_last()[i]) by {
            assert(children.drop_last()[i] == children[i]);
        }
        lemma_no_launchers(directory, children.drop_last());
    }
}

} // verus!
