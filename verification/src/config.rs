//! Project-wide names, identifiers and URLs.

use vstd::prelude::*;

verus! {

/// GitHub organization/user for remote URLs.
pub const GITHUB_OWNER: &'static str = "yancongya";

/// GitHub repository name.
pub const GITHUB_REPO: &'static str = "skills-hub";

/// Full GitHub repo path (`owner/repo`).
pub const GITHUB_REPO_PATH: &'static str = "yancongya/skills-hub";

/// App bundle identifier; also names the data directory of the database.
pub const APP_IDENTIFIER: &'static str = "com.qufei1993.skillshub";

/// Directory name for the central skill repository (`~/.skillshub`).
pub const CENTRAL_DIR_NAME: &'static str = ".skillshub";

/// Git cache directory name (inside the platform cache dir).
pub const GIT_CACHE_DIR_NAME: &'static str = "skills-hub-git-cache";

/// URL for the featured skills JSON index.
pub const FEATURED_SKILLS_URL: &'static str =
    "https://raw.githubusercontent.com/yancongya/skills-hub/main/featured-skills.json";

/// Updater endpoint URL (GitHub releases).
pub const UPDATER_URL: &'static str =
    "https://github.com/yancongya/skills-hub/releases/latest/download/updater.json";

/// Product name sent as the HTTP `User-Agent`.
pub const PRODUCT_NAME: &'static str = "skilldo";

} // verus!
