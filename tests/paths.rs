use mediastore::config::{db_file_path, db_sql_path, db_thumbnail_path, Config};
use mediastore::hash::{hash_bytes, ContentHasher};
use mediastore::paths::{file_extension, hex_string, join, sharded_path};
use mediastore::post::Post;
use mediastore::text::{join_with_commas, str_less};

fn digest_0123() -> [u8; 32] {
    let mut d = [0u8; 32];
    d[0] = 0x01;
    d[1] = 0x23;
    d[2] = 0xab;
    d[31] = 0xff;
    d
}

fn config_at(files: &str, thumbs: &str) -> Config {
    Config {
        db_sql_path: "db.sqlite".to_string(),
        db_file_path: files.to_string(),
        db_thumbnail_path: thumbs.to_string(),
    }
}

fn post_with(ext: Option<&str>, tags: &[&str]) -> Post {
    Post {
        id: 1,
        blake3_bytes: digest_0123(),
        extension: ext.map(|e| e.to_string()),
        original_name: "photo".to_string(),
        tags: tags.iter().map(|t| t.to_string()).collect(),
    }
}

#[test]
fn hex_of_digest() {
    let h = hex_string(&digest_0123());
    assert_eq!(h.len(), 64);
    assert!(h.starts_with("0123ab00"));
    assert!(h.ends_with("00ff"));
}

#[test]
fn join_puts_one_separator() {
    assert_eq!(join("a", "b"), "a/b");
    assert_eq!(join("a/", "b"), "a/b");
    assert_eq!(join("", "b"), "b");
}

#[test]
fn db_file_is_sharded_with_extension() {
    let post = post_with(Some("png"), &[]);
    let path = post.get_db_file(&config_at("./db/files", "./db/thumbnails"));
    let hex = hex_string(&digest_0123());
    assert_eq!(path, format!("./db/files/01/23/{}.png", hex));
}

#[test]
fn db_file_without_extension() {
    let post = post_with(None, &[]);
    let path = post.get_db_file(&config_at("files/", "thumbs"));
    let hex = hex_string(&digest_0123());
    assert_eq!(path, format!("files/01/23/{}", hex));
    let empty = post_with(Some(""), &[]);
    assert_eq!(empty.get_db_file(&config_at("files/", "thumbs")), path);
}

#[test]
fn db_thumbnail_is_jpg() {
    let post = post_with(Some("png"), &[]);
    let path = post.get_db_thumbnail(&config_at("files", "thumbs"));
    let hex = hex_string(&digest_0123());
    assert_eq!(path, format!("thumbs/01/23/{}.jpg", hex));
    assert_eq!(sharded_path("thumbs", &digest_0123(), &Some("jpg".to_string())), path);
}

#[test]
fn tag_string_is_sorted() {
    let post = post_with(None, &["zebra", "apple", "mango", "apple"]);
    assert_eq!(post.get_tag_string(), "apple,mango,zebra");
    let none = post_with(None, &[]);
    assert_eq!(none.get_tag_string(), "");
}

#[test]
fn join_with_commas_keeps_order() {
    let v = vec!["b".to_string(), "a".to_string()];
    assert_eq!(join_with_commas(&v), "b,a");
}

#[test]
fn string_order_is_lexicographic() {
    assert!(str_less("a", "b"));
    assert!(str_less("ab", "abc"));
    assert!(!str_less("abc", "ab"));
    assert!(!str_less("x", "x"));
    assert!(str_less("", "a"));
    assert!(str_less("Z", "a"));
}

#[test]
fn file_extensions_follow_path_rules() {
    assert_eq!(file_extension("a.png"), Some("png".to_string()));
    assert_eq!(file_extension("a.tar.gz"), Some("gz".to_string()));
    assert_eq!(file_extension("a"), None);
    assert_eq!(file_extension(".bashrc"), None);
    assert_eq!(file_extension("a."), Some(String::new()));
    assert_eq!(file_extension(".."), None);
    assert_eq!(file_extension("."), None);
}

#[test]
fn default_config_paths() {
    assert_eq!(db_sql_path(), "./db/sqlite.db");
    assert_eq!(db_file_path(), "./db/files");
    assert_eq!(db_thumbnail_path(), "./db/thumbnails");
    let c = Config::default();
    assert_eq!(c.db_file_path, "./db/files");
    assert_eq!(c.db_thumbnail_path, "./db/thumbnails");
}

#[test]
fn blake3_known_digests() {
    assert_eq!(
        hex_string(&hash_bytes(b"")),
        "af1349b9f5f9a1a6a0404dea36dcc9499bcb25c9adc112b7cc9a93cae41f3262"
    );
    assert_eq!(
        hex_string(&hash_bytes(b"abc")),
        "6437b3ac38465133ffb63b75273a8db548c558465d79db03fd359c6cd5bd9d85"
    );
}

#[test]
fn streaming_hash_ignores_chunking() {
    let data: Vec<u8> = (0..5000u32).map(|i| (i % 251) as u8).collect();
    let mut h = ContentHasher::new();
    h.update(&data[..17]);
    h.update(&data[17..4096]);
    h.update(&data[4096..]);
    assert_eq!(h.finalize(), hash_bytes(&data));
    assert_ne!(hash_bytes(&data), hash_bytes(&data[1..]));
}
