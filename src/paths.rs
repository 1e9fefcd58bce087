use vstd::prelude::*;
use crate::text::push_char;

verus! {

/// The lowercase hexadecimal digit for `n` (below 16).
pub open spec fn hex_digit(n: int) -> char {
    seq!['0', '1', '2', '3', '4', '5', '6', '7', '8', '9', 'a', 'b', 'c', 'd', 'e', 'f'][n]
}

/// Two lowercase hexadecimal digits per byte, high nibble first.
pub open spec fn hex_of(b: Seq<u8>) -> Seq<char>
    decreases b.len(),
{
    if b.len() == 0 {
        Seq::empty()
    } else {
        hex_of(b.drop_last()) + seq![hex_digit(b.last() as int / 16), hex_digit(b.last() as int % 16)]
    }
}

pub proof fn lemma_hex_len(b: Seq<u8>)
    ensures
        hex_of(b).len() == 2 * b.len(),
    decreases b.len(),
{
    if b.len() > 0 {
        lemma_hex_len(b.drop_last());
    }
}

/// Appending `comp` to the path `root` as `Path::join` does on a relative
/// component: a separator goes between them unless `root` is empty or already
/// ends in one.
pub open spec fn join_path(root: Seq<char>, comp: Seq<char>) -> Seq<char> {
    if root.len() == 0 {
        comp
    } else if root.last() == '/' {
        root + comp
    } else {
        root + seq!['/'] + comp
    }
}

/// `<root>/<hex[0..2]>/<hex[2..4]>/<hex>`: the sharded place of a digest.
pub open spec fn sharded(root: Seq<char>, hex: Seq<char>) -> Seq<char> {
    join_path(join_path(join_path(root, hex.subrange(0, 2)), hex.subrange(2, 4)), hex)
}

/// `path` with `.ext` added when the extension is present and not empty.
pub open spec fn with_extension(path: Seq<char>, ext: Option<Seq<char>>) -> Seq<char> {
    match ext {
        Some(e) => if e.len() > 0 {
            path + seq!['.'] + e
        } else {
            path
        },
        None => path,
    }
}

/// The index of the last occurrence of `c` in `s`, or -1.
pub open spec fn last_index_of(s: Seq<char>, c: char) -> int
    decreases s.len(),
{
    if s.len() == 0 {
        -1
    } else if s.last() == c {
        s.len() - 1
    } else {
        last_index_of(s.drop_last(), c)
    }
}

/// The extension of a file name as `Path::extension` reads it: what follows
/// the last dot, provided something precedes that dot and the name is not `..`.
pub open spec fn extension_of(name: Seq<char>) -> Option<Seq<char>> {
    let i = last_index_of(name, '.');
    if name == seq!['.', '.'] || i <= 0 {
        None
    } else {
        Some(name.subrange(i + 1, name.len() as int))
    }
}

pub fn hex_digit_char(n: u8) -> (c: char)
    requires
        n < 16,
    ensures
        c == hex_digit(n as int),
{
    match n {
        0 => '0',
        1 => '1',
        2 => '2',
        3 => '3',
        4 => '4',
        5 => '5',
        6 => '6',
        7 => '7',
        8 => '8',
        9 => '9',
        10 => 'a',
        11 => 'b',
        12 => 'c',
        13 => 'd',
        14 => 'e',
        _ => 'f',
    }
}

/// The digest written out in lowercase hexadecimal.
pub fn hex_string(bytes: &[u8; 32]) -> (r: String)
    ensures
        r@ == hex_of(bytes@),
        r@.len() == 64,
{
    let mut out = String::new();
    let mut i: usize = 0;
    while i < 32
        invariant
            i <= 32,
            bytes@.len() == 32,
            out@ == hex_of(bytes@.take(i as int)),
        decreases 32 - i,
    {
        let b = bytes[i];
        push_char(&mut out, hex_digit_char(b / 16));
        push_char(&mut out, hex_digit_char(b % 16));
        assert(bytes@.take(i + 1).drop_last() =~= bytes@.take(i as int));
        i = i + 1;
    }
    assert(bytes@.take(32) =~= bytes@);
    proof {
        lemma_hex_len(bytes@);
    }
    out
}

pub fn join(root: &str, comp: &str) -> (r: String)
    ensures
        r@ == join_path(root@, comp@),
{
    let n = root.unicode_len();
    let mut out = root.to_owned();
    if n > 0 && root.get_char(n - 1) != '/' {
        push_char(&mut out, '/');
    }
    out.append(comp);
    out
}

/// The place of a digest under `root`, with an optional extension:
/// `<root>/<hh>/<hh>/<hex>[.<ext>]`.
pub fn sharded_path(root: &str, hash: &[u8; 32], extension: &Option<String>) -> (r: String)
    ensures
        r@ == with_extension(
            sharded(root@, hex_of(hash@)),
            match extension {
                Some(e) => Some(e@),
                None => None,
            },
        ),
{
    let hex = hex_string(hash);
    let first = hex.as_str().substring_char(0, 2);
    let second = hex.as_str().substring_char(2, 4);
    let p1 = join(root, first);
    let p2 = join(p1.as_str(), second);
    let mut path = join(p2.as_str(), hex.as_str());
    match extension {
        Some(e) => {
            if e.as_str().unicode_len() > 0 {
                push_char(&mut path, '.');
                path.append(e.as_str());
            }
        },
        None => {},
    }
    path
}

/// The extension of a file name, as `Path::extension` gives it.
pub fn file_extension(name: &str) -> (r: Option<String>)
    ensures
        r matches Some(e) ==> extension_of(name@) == Some(e@),
        r is None ==> extension_of(name@) is None,
{
    let n = name.unicode_len();
    if n == 2 && name.get_char(0) == '.' && name.get_char(1) == '.' {
        assert(name@ =~= seq!['.', '.']);
        return None;
    }
    let mut i: usize = n;
    assert(name@.take(n as int) =~= name@);
    while i > 0 && name.get_char(i - 1) != '.'
        invariant
            i <= n,
            n == name@.len(),
            last_index_of(name@, '.') == last_index_of(name@.take(i as int), '.'),
        decreases i,
    {
        assert(name@.take(i - 1) =~= name@.take(i as int).drop_last());
        i = i - 1;
    }
    proof {
        if i > 0 {
            assert(name@.take(i as int).last() == '.');
        } else {
            assert(name@.take(0).len() == 0);
        }
    }
    if i <= 1 {
        return None;
    }
    Some(name.substring_char(i, n).to_owned())
}

} // verus!
