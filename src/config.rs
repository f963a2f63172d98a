//! The settings of a run and the decisions made from the command line.

use vstd::prelude::*;

use crate::tw_db_pp::path_view;
use crate::util::{file_stem, is_name, stem_of};
use crate::wh2_lua_error::Wh2LuaError;

verus! {

/// What a run has been told to do; paths are lists of components.
#[derive(Debug, Clone)]
pub struct Config {
    pub packfiles: Option<Vec<Vec<String>>>,
    pub in_dir: Option<Vec<String>>,
    pub out_dir: Vec<String>,
    /// A resource whose presence the generated scripts test before they fill their table.
    pub script_check: Option<String>,
    /// The name prefix for scripts made from core data files of a mod.
    pub mod_core_prefix: Option<String>,
    /// The input is the game's own data.
    pub base_mod: bool,
    pub force: bool,
    pub write_files_to_disk: bool,
    pub launch_game: bool,
}

/// Where the tables of a run come from.
#[derive(Debug, Clone, Copy, PartialEq, Eq, Structural)]
pub enum InputChoice {
    Packfiles,
    InDir,
}

/// The folder beside a packfile named after it: `<stem>_lua_ext`.
pub open spec fn packfile_out_dir(p: Seq<Seq<char>>) -> Seq<Seq<char>> {
    p.drop_last().push(stem_of(p.last()) + "_lua_ext"@)
}

/// The packfiles of a mod-manager profile, last listed first, each under `data`.
pub open spec fn profile_packfiles(lines: Seq<Seq<char>>) -> Seq<Seq<Seq<char>>> {
    Seq::new(lines.len(), |i: int| seq!["data"@, lines[lines.len() - 1 - i]])
}

pub open spec fn paths_view(ps: Seq<Vec<String>>) -> Seq<Seq<Seq<char>>> {
    ps.map_values(|p: Vec<String>| path_view(p@))
}

impl Config {
    /// Packfiles come first; then an input directory; with neither there is nothing to do.
    pub fn input_choice(&self) -> (r: Result<InputChoice, Wh2LuaError>)
        ensures
            (self.packfiles matches Some(p) && p@.len() > 0) ==> r == Ok::<
                InputChoice,
                Wh2LuaError,
            >(InputChoice::Packfiles),
            !(self.packfiles matches Some(p) && p@.len() > 0) && self.in_dir is Some ==> r == Ok::<
                InputChoice,
                Wh2LuaError,
            >(InputChoice::InDir),
            !(self.packfiles matches Some(p) && p@.len() > 0) && self.in_dir is None ==> (r matches Err(
                e,
            ) && e is ConfigError),
    {
        if let Some(p) = &self.packfiles {
            if p.len() > 0 {
                return Ok(InputChoice::Packfiles);
            }
        }
        if self.in_dir.is_some() {
            Ok(InputChoice::InDir)
        } else {
            Err(
                Wh2LuaError::ConfigError(
                    String::from_str(
                        "Neither packfile nor input directory parameters found in config and/or command arguments.",
                    ),
                ),
            )
        }
    }

    /// The packfiles a mod-manager profile lists (one name per line), the last listed first,
    /// each under `data`; none when it lists nothing.
    pub fn packfile_paths_from_profile_lines(lines: &Vec<String>) -> (r: Option<Vec<Vec<String>>>)
        ensures
            lines@.len() == 0 ==> r is None,
            lines@.len() > 0 ==> (r matches Some(ps) && paths_view(ps@) == profile_packfiles(
                path_view(lines@),
            )),
    {
        let ghost want = profile_packfiles(path_view(lines@));
        let mut ps: Vec<Vec<String>> = Vec::new();
        let mut i: usize = lines.len();
        while i > 0
            invariant
                i <= lines.len(),
                want == profile_packfiles(path_view(lines@)),
                paths_view(ps@) == want.take(lines.len() - i),
            decreases i,
        {
            let mut p: Vec<String> = Vec::new();
            p.push(String::from_str("data"));
            p.push(lines[i - 1].clone());
            let ghost old_ps = ps@;
            ps.push(p);
            proof {
                assert(path_view(p@) =~= seq!["data"@, lines@[i - 1]@]);
                assert(paths_view(ps@) =~= paths_view(old_ps).push(path_view(p@)));
                assert(paths_view(ps@) =~= want.take(lines.len() - i + 1));
            }
            i = i - 1;
        }
        if ps.len() == 0 {
            None
        } else {
            proof {
                assert(want.take(lines.len() as int) =~= want);
            }
            Some(ps)
        }
    }

    /// The output folder beside a packfile, named `<stem>_lua_ext`.
    pub fn generate_output_directory_from_packfile(packfile_path: &Vec<String>) -> (r: Result<
        Vec<String>,
        Wh2LuaError,
    >)
        ensures
            packfile_path@.len() > 0 && is_name(packfile_path@.last()@) ==> (r matches Ok(d)
                && path_view(d@) == packfile_out_dir(path_view(packfile_path@))),
            !(packfile_path@.len() > 0 && is_name(packfile_path@.last()@)) ==> (r matches Err(e)
                && e is ConfigError),
    {
        let stem = match file_stem(packfile_path) {
            Some(s) => s,
            None => {
                return Err(
                    Wh2LuaError::ConfigError(String::from_str("The packfile path does not name a file.")),
                );
            },
        };
        let mut dir: Vec<String> = Vec::new();
        let mut i: usize = 0;
        while i + 1 < packfile_path.len()
            invariant
                packfile_path@.len() > 0,
                i + 1 <= packfile_path.len(),
                path_view(dir@) == path_view(packfile_path@).take(i as int),
            decreases packfile_path.len() - i,
        {
            let ghost old_dir = dir@;
            let c = packfile_path[i].clone();
            dir.push(c);
            proof {
                assert(path_view(dir@) =~= path_view(old_dir).push(c@));
                assert(path_view(dir@) =~= path_view(packfile_path@).take(i + 1));
            }
            i = i + 1;
        }
        let mut name = stem;
        name.append("_lua_ext");
        let ghost old_dir = dir@;
        dir.push(name);
        proof {
            let p = path_view(packfile_path@);
            assert(p.last() == packfile_path@.last()@);
            assert(path_view(dir@) =~= path_view(old_dir).push(name@));
            assert(path_view(dir@) =~= packfile_out_dir(p));
        }
        Ok(dir)
    }

    /// The output directory: the one given; else, for a single packfile, the folder beside
    /// it; else the input directory; else `lua_db_export` in the working directory.
    pub fn calculate_out_dir(
        output_dir: Option<Vec<String>>,
        packfile_paths: &Option<Vec<Vec<String>>>,
        in_dir_path: &Option<Vec<String>>,
        current_dir: Vec<String>,
    ) -> (r: Result<Vec<String>, Wh2LuaError>)
        ensures
            output_dir matches Some(o) ==> r == Ok::<Vec<String>, Wh2LuaError>(o),
            output_dir is None && (packfile_paths matches Some(ps) && ps@.len() == 1) ==> ({
                let p = packfile_paths->Some_0@[0];
                &&& p@.len() > 0 && is_name(p@.last()@) ==> (r matches Ok(d) && path_view(d@)
                    == packfile_out_dir(path_view(p@)))
                &&& !(p@.len() > 0 && is_name(p@.last()@)) ==> (r matches Err(e) && e is ConfigError)
            }),
            output_dir is None && !(packfile_paths matches Some(ps) && ps@.len() == 1)
                && in_dir_path is Some ==> (r matches Ok(d) && path_view(d@) == path_view(
                in_dir_path->Some_0@,
            )),
            output_dir is None && !(packfile_paths matches Some(ps) && ps@.len() == 1)
                && in_dir_path is None ==> (r matches Ok(d) && path_view(d@) == path_view(
                current_dir@,
            ).push("lua_db_export"@)),
    {
        if let Some(o) = output_dir {
            return Ok(o);
        }
        if let Some(ps) = packfile_paths {
            if ps.len() == 1 {
                return Self::generate_output_directory_from_packfile(&ps[0]);
            }
        }
        if let Some(d) = in_dir_path {
            return Ok(d.clone());
        }
        let mut path = current_dir;
        let ghost old_path = path@;
        let e = String::from_str("lua_db_export");
        path.push(e);
        proof {
            assert(path_view(path@) =~= path_view(old_path).push("lua_db_export"@));
        }
        Ok(path)
    }

    /// The game is launched after the run only when no input was named and the real game
    /// executable sits beside this program.
    pub fn calculate_should_launch_game(
        packfile_arg_given: bool,
        in_dir_arg_given: bool,
        real_exe_exists: bool,
    ) -> (r: bool)
        ensures
            r == (!packfile_arg_given && !in_dir_arg_given && real_exe_exists),
    {
        !packfile_arg_given && !in_dir_arg_given && real_exe_exists
    }
}

} // verus!
