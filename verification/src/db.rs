use vstd::prelude::*;

verus! {

/// An anime of the library.
pub struct Anime {
    pub id: i64,
    pub mal_id: i64,
    pub name: String,
    pub cover_art: Option<Vec<u8>>,
    pub thumbnail: Option<Vec<u8>>,
    pub description: Option<String>,
    pub total_episodes: i64,
    pub status: String,
    pub directory_id: i64,
}

/// An episode file of an anime.
pub struct Episodes {
    pub id: i64,
    pub anime_id: i64,
    pub episode_number: i64,
    pub file_path: String,
    pub length: i64,
    pub watched_time: i64,
    pub is_watched: bool,
    pub thumbnail: Option<Vec<u8>>,
}

/// A directory that the library scans for videos.
pub struct Directories {
    pub id: i64,
    pub path: String,
    pub dir_type: String,
}

/// A key and value of the application settings.
pub struct Settings {
    pub key: String,
    pub value: String,
}

/// The saved MyAnimeList credentials.
pub struct MalSettings {
    pub mal_access_token: String,
    pub mal_refresh_token: String,
    pub mal_token_expires_at: i64,
}

/// The SQLite URL of the database file `file_name` in the application
/// directory `app_dir`.
pub fn get_databse_url(app_dir: &str, file_name: &str) -> (r: String)
    ensures
        r@ == "sqlite://"@ + app_dir@ + "/"@ + file_name@,
{
    let mut r = "sqlite://".to_owned();
    r.append(app_dir);
    r.append("/");
    r.append(file_name);
    r
}

} // verus!
