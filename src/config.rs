use vstd::prelude::*;

verus! {

/// Where the archive keeps its database file, its stored files and its
/// thumbnails.
pub struct Config {
    pub db_sql_path: String,
    pub db_file_path: String,
    pub db_thumbnail_path: String,
}

pub fn db_sql_path() -> (r: String)
    ensures
        r@ == "./db/sqlite.db"@,
{
    String::from_str("./db/sqlite.db")
}

pub fn db_file_path() -> (r: String)
    ensures
        r@ == "./db/files"@,
{
    String::from_str("./db/files")
}

pub fn db_thumbnail_path() -> (r: String)
    ensures
        r@ == "./db/thumbnails"@,
{
    String::from_str("./db/thumbnails")
}

impl Default for Config {
    fn default() -> (r: Config)
        ensures
            r.db_sql_path@ == "./db/sqlite.db"@,
            r.db_file_path@ == "./db/files"@,
            r.db_thumbnail_path@ == "./db/thumbnails"@,
    {
        Config {
            db_sql_path: db_sql_path(),
            db_file_path: db_file_path(),
            db_thumbnail_path: db_thumbnail_path(),
        }
    }
}

} // verus!
