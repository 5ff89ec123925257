//! The plan of the packaging tool: which libraries are built for which
//! targets, with which arguments, and where their files lie. Running the
//! commands and moving the files is left to the program around the library.

use vstd::prelude::*;
use vstd::string::StringExecFns;
use crate::compare::{compare_text, Order};

verus! {

/// What the packaging tool is asked to do.
#[derive(Clone, Copy, Debug, PartialEq, Eq, Structural)]
pub enum SwiftCommand {
    /// Builds the Swift XCFramework.
    BuildXCFramework {
        /// Build with the release profile.
        release: bool,
    },
}

impl SwiftCommand {
    /// The build profile that the command asks for.
    pub fn profile(&self) -> (p: &'static str)
        ensures
            p@ == match *self {
                SwiftCommand::BuildXCFramework { release } => if release {
                    "release"@
                } else {
                    "dev"@
                },
            },
    {
        match self {
            SwiftCommand::BuildXCFramework { release } => if *release {
                "release"
            } else {
                "dev"
            },
        }
    }
}

/// The name of the directory into which a profile is built: `debug` for the
/// profile `dev`, and the profile's own name for every other.
pub fn profile_dir_name(profile: &str) -> (dir: String)
    ensures
        dir@ == if profile@ == "dev"@ {
            "debug"@
        } else {
            profile@
        },
{
    match compare_text(profile, "dev") {
        Order::Equal => String::from_str("debug"),
        _ => String::from_str(profile),
    }
}

/// Whether the libraries of a profile are built without debug information:
/// those of the profile `release` are.
pub fn strips_debug_info(profile: &str) -> (strip: bool)
    ensures
        strip == (profile@ == "release"@),
{
    match compare_text(profile, "release") {
        Order::Equal => true,
        _ => false,
    }
}

/// A library of the bundle: built for one target, or joined from the builds
/// for several.
#[derive(Debug, PartialEq, Eq)]
pub enum Library {
    Single { target: String },
    Multiple { targets: Vec<String>, lipo: String },
}

/// A library by what it names.
pub enum LibraryModel {
    Single { target: Seq<char> },
    Multiple { targets: Seq<Seq<char>>, lipo: Seq<char> },
}

/// The text of each string of a sequence.
pub open spec fn texts(s: Seq<String>) -> Seq<Seq<char>> {
    Seq::new(s.len(), |i: int| s[i]@)
}

impl View for Library {
    type V = LibraryModel;

    open spec fn view(&self) -> LibraryModel {
        match *self {
            Library::Single { target } => LibraryModel::Single { target: target@ },
            Library::Multiple { targets, lipo } => LibraryModel::Multiple {
                targets: texts(targets@),
                lipo: lipo@,
            },
        }
    }
}

/// What each library of a sequence names.
pub open spec fn libraries_model(s: Seq<Library>) -> Seq<LibraryModel> {
    Seq::new(s.len(), |i: int| s[i]@)
}

/// The libraries of the bundle.
pub open spec fn bundle() -> Seq<LibraryModel> {
    seq![
        LibraryModel::Single { target: "aarch64-apple-ios"@ },
        LibraryModel::Multiple {
            targets: seq!["aarch64-apple-ios-sim"@, "x86_64-apple-ios"@],
            lipo: "libconvex_ffi_ios_sim.a"@,
        },
        LibraryModel::Multiple {
            targets: seq!["aarch64-apple-darwin"@, "x86_64-apple-darwin"@],
            lipo: "libconvex_ffi_macos.a"@,
        },
    ]
}

/// The libraries of the bundle: iOS on Apple silicon, the iOS simulator and
/// macOS, the last two for Apple silicon and for Intel.
pub fn libraries() -> (libs: Vec<Library>)
    ensures
        libraries_model(libs@) == bundle(),
{
    let mut ios_sim: Vec<String> = Vec::new();
    ios_sim.push(String::from_str("aarch64-apple-ios-sim"));
    ios_sim.push(String::from_str("x86_64-apple-ios"));
    let mut macos: Vec<String> = Vec::new();
    macos.push(String::from_str("aarch64-apple-darwin"));
    macos.push(String::from_str("x86_64-apple-darwin"));
    let mut libs: Vec<Library> = Vec::new();
    libs.push(Library::Single { target: String::from_str("aarch64-apple-ios") });
    libs.push(
        Library::Multiple { targets: ios_sim, lipo: String::from_str("libconvex_ffi_ios_sim.a") },
    );
    libs.push(
        Library::Multiple { targets: macos, lipo: String::from_str("libconvex_ffi_macos.a") },
    );
    proof {
        assert(texts(ios_sim@) =~= seq!["aarch64-apple-ios-sim"@, "x86_64-apple-ios"@]);
        assert(texts(macos@) =~= seq!["aarch64-apple-darwin"@, "x86_64-apple-darwin"@]);
        assert(libraries_model(libs@) =~= bundle());
    }
    libs
}

/// The targets of one library, in order.
pub open spec fn targets_of(lib: LibraryModel) -> Seq<Seq<char>> {
    match lib {
        LibraryModel::Single { target } => seq![target],
        LibraryModel::Multiple { targets, .. } => targets,
    }
}

/// The targets of the first `n` libraries, in order.
pub open spec fn targets_upto(libs: Seq<LibraryModel>, n: int) -> Seq<Seq<char>>
    decreases n,
{
    if n <= 0 {
        Seq::empty()
    } else {
        targets_upto(libs, n - 1) + targets_of(libs[n - 1])
    }
}

/// The targets of all the libraries, in order.
pub open spec fn all_targets(libs: Seq<LibraryModel>) -> Seq<Seq<char>> {
    targets_upto(libs, libs.len() as int)
}

/// `--target` and the target, for each of `targets` in order.
pub open spec fn target_flags(targets: Seq<Seq<char>>) -> Seq<Seq<char>>
    decreases targets.len(),
{
    if targets.len() == 0 {
        Seq::empty()
    } else {
        target_flags(targets.drop_last()) + seq!["--target"@, targets.last()]
    }
}

/// The arguments of the build of every library of `libs` with `profile`.
pub open spec fn build_args(profile: Seq<char>, libs: Seq<LibraryModel>) -> Seq<Seq<char>> {
    seq!["build"@, "-p"@, "convex-ffi"@, "--profile"@, profile] + target_flags(all_targets(libs))
}

/// The targets that `libs` are built for, library by library.
pub fn build_targets(libs: &Vec<Library>) -> (targets: Vec<String>)
    ensures
        texts(targets@) == all_targets(libraries_model(libs@)),
{
    let ghost model = libraries_model(libs@);
    let mut targets: Vec<String> = Vec::new();
    let mut i: usize = 0;
    assert(texts(targets@) =~= targets_upto(model, 0));
    while i < libs.len()
        invariant
            i <= libs@.len(),
            model == libraries_model(libs@),
            texts(targets@) == targets_upto(model, i as int),
        decreases libs@.len() - i,
    {
        let ghost before = texts(targets@);
        match &libs[i] {
            Library::Single { target } => {
                targets.push(target.clone());
                assert(texts(targets@) =~= before + targets_of(model[i as int]));
            },
            Library::Multiple { targets: several, .. } => {
                let mut j: usize = 0;
                while j < several.len()
                    invariant
                        j <= several@.len(),
                        texts(targets@) == before + texts(several@).take(j as int),
                    decreases several@.len() - j,
                {
                    let ghost prev = targets@;
                    targets.push(several[j].clone());
                    proof {
                        let step = texts(several@).take(j as int).push(several@[j as int]@);
                        assert(texts(several@).take(j + 1) =~= step);
                        assert(texts(targets@) =~= texts(prev).push(several@[j as int]@));
                        assert(texts(targets@) =~= before + step);
                    }
                    j = j + 1;
                }
                assert(texts(several@).take(several@.len() as int) =~= texts(several@));
            },
        }
        i = i + 1;
    }
    targets
}

/// The arguments with which cargo builds every library of `libs` with
/// `profile`: the package and the profile, then every target.
pub fn cargo_build_args(profile: &str, libs: &Vec<Library>) -> (args: Vec<String>)
    ensures
        texts(args@) == build_args(profile@, libraries_model(libs@)),
{
    let targets = build_targets(libs);
    let mut args: Vec<String> = Vec::new();
    args.push(String::from_str("build"));
    args.push(String::from_str("-p"));
    args.push(String::from_str("convex-ffi"));
    args.push(String::from_str("--profile"));
    args.push(String::from_str(profile));
    let ghost head = texts(args@);
    assert(head =~= seq!["build"@, "-p"@, "convex-ffi"@, "--profile"@, profile@]);
    let mut i: usize = 0;
    assert(texts(targets@).take(0) =~= Seq::<Seq<char>>::empty());
    while i < targets.len()
        invariant
            i <= targets@.len(),
            texts(args@) == head + target_flags(texts(targets@).take(i as int)),
        decreases targets@.len() - i,
    {
        let ghost upto = texts(targets@).take(i + 1);
        let ghost prev = args@;
        args.push(String::from_str("--target"));
        args.push(targets[i].clone());
        proof {
            assert(upto.drop_last() =~= texts(targets@).take(i as int));
            assert(upto.last() == targets@[i as int]@);
            assert(texts(args@) =~= texts(prev) + seq!["--target"@, targets@[i as int]@]);
            assert(texts(args@) =~= head + target_flags(upto));
        }
        i = i + 1;
    }
    assert(texts(targets@).take(targets@.len() as int) =~= texts(targets@));
    args
}

/// Where the build leaves the static library of `target`, below the target
/// directory: the target, the directory of the profile, the file.
pub fn library_path(target: &str, profile_dir: &str) -> (parts: Vec<String>)
    ensures
        texts(parts@) == seq![target@, profile_dir@, "libconvex_ffi.a"@],
{
    let mut parts: Vec<String> = Vec::new();
    parts.push(String::from_str(target));
    parts.push(String::from_str(profile_dir));
    parts.push(String::from_str("libconvex_ffi.a"));
    assert(texts(parts@) =~= seq![target@, profile_dir@, "libconvex_ffi.a"@]);
    parts
}

/// The text that stands for `text` once every match of `from` in it has
/// been replaced by `to`. The matches are found from the left and do not
/// overlap: where `from` stands at the front it is replaced and the search
/// goes on behind it, and else the first character is kept. It is meant for
/// a `from` that is not empty.
pub open spec fn replaced(text: Seq<char>, from: Seq<char>, to: Seq<char>) -> Seq<char>
    recommends
        from.len() > 0,
    decreases text.len(),
{
    if from.len() == 0 || text.len() < from.len() {
        text
    } else if text.take(from.len() as int) == from {
        to + replaced(text.skip(from.len() as int), from, to)
    } else {
        seq![text[0]] + replaced(text.skip(1), from, to)
    }
}

/// `str::replace` of std, for a pattern that is not empty: a new text in
/// which every match of `from` in `text`, found from the left and not
/// overlapping an earlier one, is replaced by `to`.
#[verifier::external_body]
fn replace_all(text: &str, from: &str, to: &str) -> (r: String)
    requires
        from@.len() > 0,
    ensures
        r@ == replaced(text@, from@, to@),
{
    text.replace(from, to)
}

/// The generated Swift source with the declaration of the value type made
/// open to member lookup and sendable.
pub fn update_swift_source(contents: &str) -> (updated: String)
    ensures
        updated@ == replaced(
            contents@,
            "public enum Value {"@,
            "@dynamicMemberLookup\npublic enum Value: Sendable {"@,
        ),
{
    proof {
        reveal_strlit("public enum Value {");
    }
    replace_all(
        contents,
        "public enum Value {",
        "@dynamicMemberLookup\npublic enum Value: Sendable {",
    )
}

} // verus!
