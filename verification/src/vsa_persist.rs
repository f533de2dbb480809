//! Where the persisted model bundle lives.
use vstd::prelude::*;
use std::path::PathBuf;

verus! {

#[verifier::external_type_specification]
#[verifier::external_body]
pub struct ExPathBuf(PathBuf);

/// File name of the persisted codebook bundle.
pub const BIN_FILENAME: &'static str = "codebook_episodic.bin";

/// Directory name of the persisted model bundles.
pub const BIN_DIRNAME: &'static str = "vsa_model_bins";

/// The schema version of the persisted bundle that this library writes and
/// accepts on load.
pub const SCHEMA_VERSION: u32 = 1;

/// Whether a loaded bundle can be used: only one carrying `SCHEMA_VERSION`
/// is accepted; any other version is refused with that version reported.
pub fn check_schema_version(version: u32) -> (r: Result<(), u32>)
    ensures
        r is Ok <==> version == SCHEMA_VERSION,
        r is Err ==> r->Err_0 == version,
{
    if version != SCHEMA_VERSION {
        return Err(version);
    }
    Ok(())
}

/// The components of a path, in the order in which `Path::components`
/// yields them, each taken as its text (decoded lossily where it is not
/// valid Unicode). Separators are not components: `a//b/` and `a/b` have
/// the same components.
pub uninterp spec fn path_parts(p: PathBuf) -> Seq<Seq<char>>;

/// Text that, joined onto any path, adds exactly one component: non-empty,
/// with no path separator (`/`, nor `\\` as on Windows), neither `.` (which
/// joining drops) nor `..` (which joining onto a verbatim Windows path
/// removes together with the last component), and with no `:` (so that it
/// cannot be read as a drive prefix, which would replace the path).
pub open spec fn is_plain_name(t: Seq<char>) -> bool {
    &&& t.len() > 0
    &&& forall|i: int| 0 <= i < t.len() ==> t[i] != '/' && t[i] != '\\'
    &&& t != seq!['.']
    &&& t != seq!['.', '.']
    &&& forall|i: int| 0 <= i < t.len() ==> t[i] != ':'
}

/// The directory, inside the configuration directory, that belongs to this
/// application.
pub const APP_DIRNAME: &'static str = "guddalm";

/// The components of the directory that persisted bundles go under: the
/// configuration directory when there is one, else `.`.
pub open spec fn store_base_parts(config: Option<PathBuf>) -> Seq<Seq<char>> {
    match config {
        Some(p) => path_parts(p),
        None => seq![seq!['.']],
    }
}

/// The components of the store directory for a given configuration
/// directory: `<base>/guddalm/vsa_model_bins`.
pub open spec fn store_dir_parts(config: Option<PathBuf>) -> Seq<Seq<char>> {
    store_base_parts(config) + seq![APP_DIRNAME@, BIN_DIRNAME@]
}

/// `dirs::config_dir`: the user's configuration directory, read from the
/// environment and the operating system; it may be absent. Nothing is
/// claimed of it.
#[verifier::external_body]
fn config_dir() -> Option<PathBuf> {
    dirs::config_dir()
}

/// `PathBuf::from` a string: a plain name, or `.`, becomes a path of
/// exactly that one component. Nothing is claimed of other text.
#[verifier::external_body]
fn path_from_str(s: &str) -> (r: PathBuf)
    ensures
        is_plain_name(s@) || s@ == seq!['.'] ==> path_parts(r) == seq![s@],
{
    PathBuf::from(s)
}

/// `Path::join`: adjoining a relative name extends the path by that one
/// component. Nothing is claimed where the name is not plain (an absolute
/// path or a prefix replaces the path; `.` is dropped).
#[verifier::external_body]
fn path_join(p: &PathBuf, s: &str) -> (r: PathBuf)
    ensures
        is_plain_name(s@) ==> path_parts(r) == path_parts(*p).push(s@),
{
    p.join(s)
}

/// The store directory under a given configuration directory (`.` when
/// there is none): `<base>/guddalm/vsa_model_bins`.
pub fn store_dir_in(config: Option<PathBuf>) -> (r: PathBuf)
    ensures
        path_parts(r) == store_dir_parts(config),
{
    proof {
        reveal_strlit(".");
        reveal_strlit("guddalm");
        reveal_strlit("vsa_model_bins");
    }
    assert("."@ =~= seq!['.']);
    assert(is_plain_name(APP_DIRNAME@));
    assert(is_plain_name(BIN_DIRNAME@));
    let ghost cfg = config;
    let base = match config {
        Some(p) => p,
        None => path_from_str("."),
    };
    assert(path_parts(base) == store_base_parts(cfg));
    let app = path_join(&base, APP_DIRNAME);
    let dir = path_join(&app, BIN_DIRNAME);
    assert(path_parts(dir) =~= store_dir_parts(cfg));
    dir
}

/// The directory of persisted bundles: `<config dir>/guddalm/vsa_model_bins`,
/// with `.` standing in when there is no configuration directory. Which
/// configuration directory the environment gives is not stated.
pub fn default_store_dir() -> (r: PathBuf)
    ensures
        exists|config: Option<PathBuf>| path_parts(r) == store_dir_parts(config),
{
    let config = config_dir();
    let ghost cfg = config;
    let r = store_dir_in(config);
    assert(path_parts(r) == store_dir_parts(cfg));
    r
}

/// The path of the persisted codebook bundle:
/// `default_store_dir()/codebook_episodic.bin`.
pub fn model_bin_path() -> (r: PathBuf)
    ensures
        exists|config: Option<PathBuf>|
            path_parts(r) == store_dir_parts(config).push(BIN_FILENAME@),
{
    proof {
        reveal_strlit("codebook_episodic.bin");
    }
    assert(BIN_FILENAME@.len() == 21);
    assert(is_plain_name(BIN_FILENAME@));
    let dir = default_store_dir();
    let ghost config = choose|config: Option<PathBuf>| path_parts(dir) == store_dir_parts(config);
    let r = path_join(&dir, BIN_FILENAME);
    assert(path_parts(r) == store_dir_parts(config).push(BIN_FILENAME@));
    r
}

} // verus!
