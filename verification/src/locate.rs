use vstd::prelude::*;

use crate::MoodError;

verus! {

/// The directory name the log is stored under.
pub const MOODLY_DIR_NAME: &'static str = "moodly";

/// The file name the log is stored under, inside that directory.
pub const DATA_CSV_FNAME: &'static str = "moodly_data.csv";

/// The environment variable that overrides where that directory's parent
/// lies.
pub const DATA_DIR_PATH_ENV_KEY: &'static str = "MOODLY_DIR";

/// Which of the two possible sources names the data directory's parent: an
/// override from the environment always wins; failing that, the platform's
/// local-data directory; with neither, nothing can be resolved and the
/// lookup fails.
pub fn resolve_data_parent(env_override: Option<String>, platform_dir: Option<String>) -> (r:
    Result<String, MoodError>)
    ensures
        env_override matches Some(p) ==> r == Result::<String, MoodError>::Ok(p),
        env_override is None ==> (platform_dir matches Some(p) ==> r == Result::<
            String,
            MoodError,
        >::Ok(p)),
        env_override is None && platform_dir is None ==> r == Result::<
            String,
            MoodError,
        >::Err(MoodError::NotFound),
{
    match env_override {
        Option::Some(p) => Result::Ok(p),
        Option::None => match platform_dir {
            Option::Some(p) => Result::Ok(p),
            Option::None => Result::Err(MoodError::NotFound),
        },
    }
}

} // verus!
