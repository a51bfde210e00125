//! The icon and the identity of a game's window.

use vstd::prelude::*;
use crate::assets;
use crate::assets::lower_extension;
use crate::paths;
use crate::paths::is_path_before;
use crate::text::same_text;
use crate::text_parts;

verus! {

/// One step of the FNV-1a hash.
pub open spec fn fnv_step(hash: u64, byte: u8) -> u64 {
    (hash ^ (byte as u64)).wrapping_mul(0x100000001b3u64)
}

/// The FNV-1a hash of a row of bytes.
pub open spec fn fnv(bytes: Seq<u8>) -> u64
    decreases bytes.len(),
{
    if bytes.len() == 0 {
        0xcbf29ce484222325u64
    } else {
        fnv_step(fnv(bytes.drop_last()), bytes.last())
    }
}

/// The digit for a number below 16.
pub open spec fn hex_digit(d: int) -> char {
    if d < 10 {
        (48 + d) as char
    } else {
        (87 + d) as char
    }
}

/// `v` in `n` hexadecimal digits.
pub open spec fn hex(v: int, n: int) -> Seq<char>
    decreases n,
{
    if n <= 0 {
        Seq::empty()
    } else {
        hex(v / 16, n - 1).push(hex_digit(v % 16))
    }
}

fn push_hex(out: &mut String, v: u64, n: u32)
    ensures
        final(out)@ == old(out)@ + hex(v as int, n as int),
    decreases n,
{
    if n > 0 {
        push_hex(out, v / 16, n - 1);
        let d: u32 = (v % 16) as u32;
        let code: u32 = if d < 10 {
            48 + d
        } else {
            87 + d
        };
        let c = match char::from_u32(code) {
            Some(c) => c,
            None => '0',
        };
        out.push(c);
    }
    proof {
        assert(out@ =~= old(out)@ + hex(v as int, n as int));
    }
}

/// The hash of a row of bytes. It is the same in every release, so a game
/// keeps its place in the task bar.
pub fn stable_hash(bytes: &[u8]) -> (hash: u64)
    ensures
        hash == fnv(bytes@),
{
    let mut hash: u64 = 0xcbf29ce484222325;
    let mut i: usize = 0;
    proof {
        assert(bytes@.take(0) =~= Seq::<u8>::empty());
    }
    while i < bytes.len()
        invariant
            i <= bytes@.len(),
            hash == fnv(bytes@.take(i as int)),
        decreases bytes@.len() - i,
    {
        proof {
            let taken = bytes@.take(i + 1);
            assert(taken.drop_last() =~= bytes@.take(i as int));
            assert(taken.last() == bytes@[i as int]);
        }
        hash = (hash ^ (bytes[i] as u64)).wrapping_mul(0x100000001b3);
        i = i + 1;
    }
    proof {
        assert(bytes@.take(i as int) =~= bytes@);
    }
    hash
}

/// The identity of a game's window, by the bytes of its directory.
pub fn application_id(project_dir: &[u8]) -> (id: String)
    ensures
        id@ == "org.siglus_rs.game.g"@ + hex(fnv(project_dir@) as int, 16),
{
    let mut id = "org.siglus_rs.game.g".to_owned();
    push_hex(&mut id, stable_hash(project_dir), 16);
    id
}

/// Whether a file is an icon by its extension.
pub open spec fn is_icon(path: Seq<char>) -> bool {
    assets::extension_of(path) == "ico"@
}

/// Whether a file is an icon by its extension.
pub fn is_icon_file(path: &str) -> (r: bool)
    ensures
        r == is_icon(path@),
{
    let ext = lower_extension(path);
    same_text(ext.as_str(), "ico")
}

/// Whether no path of a list comes before one that stands in front of it.
pub open spec fn ascending(list: Seq<Seq<char>>) -> bool {
    forall|i: int, j: int|
        #![trigger list[i], list[j]]
        0 <= i < j < list.len() ==> !paths::path_before(list[j], list[i])
}

/// The icons among some files.
pub open spec fn icons_among(files: Seq<Seq<char>>) -> Seq<Seq<char>> {
    files.filter(|path: Seq<char>| is_icon(path))
}

/// Whether a list holds just the icons among some files, in the order of their
/// paths.
pub open spec fn are_icons_in_order(list: Seq<Seq<char>>, files: Seq<Seq<char>>) -> bool {
    ascending(list) && list.to_multiset() == icons_among(files).to_multiset()
}

proof fn lemma_inserted(list: Seq<Seq<char>>, at: int, path: Seq<char>)
    requires
        0 <= at <= list.len(),
    ensures
        list.insert(at, path).to_multiset() == list.to_multiset().insert(path),
{
    let longer = list.insert(at, path);
    longer.to_multiset_ensures();
    assert(longer.remove(at) =~= list);
    assert(longer[at] == path);
    assert(longer.contains(path));
    assert(longer.to_multiset() =~= list.to_multiset().insert(path));
}

fn insert_in_order(list: &mut Vec<String>, path: &str)
    requires
        ascending(text_parts::texts(old(list)@)),
    ensures
        ascending(text_parts::texts(final(list)@)),
        text_parts::texts(final(list)@).to_multiset() == text_parts::texts(
            old(list)@,
        ).to_multiset().insert(path@),
{
    let ghost sorted = text_parts::texts(list@);
    let mut at: usize = list.len();
    while at > 0
        invariant
            sorted == text_parts::texts(list@),
            list@ == old(list)@,
            at <= list@.len(),
            forall|k: int| at <= k < sorted.len() ==> paths::path_before(path@, #[trigger] sorted[k]),
        ensures
            at > 0 ==> !paths::path_before(path@, sorted[at - 1]),
        decreases at,
    {
        proof {
            assert(sorted[at - 1] == list@[at - 1]@);
        }
        if !is_path_before(path, list[at - 1].as_str()) {
            break;
        }
        at = at - 1;
    }
    list.insert(at, path.to_owned());
    proof {
        let now = text_parts::texts(list@);
        assert(now =~= sorted.insert(at as int, path@));
        lemma_inserted(sorted, at as int, path@);
        assert forall|i: int, j: int|
            #![trigger now[i], now[j]]
            0 <= i < j < now.len() implies !paths::path_before(now[j], now[i]) by {
            if j == at {
                assert(now[i] == sorted[i]);
                if i < at - 1 {
                    assert(!paths::path_before(sorted[at - 1], sorted[i]));
                    if paths::path_before(path@, sorted[i]) {
                        paths::path_order_has_no_gap(path@, sorted[at - 1], sorted[i]);
                    }
                }
            } else if i == at {
                assert(now[j] == sorted[j - 1]);
                paths::paths_are_ordered(path@, sorted[j - 1]);
            } else {
                let m = if i < at {
                    i
                } else {
                    i - 1
                };
                let n = if j < at {
                    j
                } else {
                    j - 1
                };
                assert(now[i] == sorted[m]);
                assert(now[j] == sorted[n]);
            }
        }
    }
}

/// The files that a window's icon is tried from: those with a fixed name, and
/// behind them the icons among the game's files in order.
pub fn icon_candidates(named: &Vec<String>, files: &Vec<String>) -> (r: Vec<String>)
    ensures
        r@.len() >= named@.len(),
        text_parts::texts(r@).take(named@.len() as int) == text_parts::texts(named@),
        are_icons_in_order(
            text_parts::texts(r@).skip(named@.len() as int),
            text_parts::texts(files@),
        ),
{
    let ghost all = text_parts::texts(files@);
    let ghost wanted = |path: Seq<char>| is_icon(path);
    let mut icons: Vec<String> = Vec::new();
    let mut i: usize = 0;
    proof {
        reveal(Seq::filter);
        assert(text_parts::texts(icons@) =~= all.take(0).filter(wanted));
    }
    while i < files.len()
        invariant
            all == text_parts::texts(files@),
            wanted == (|path: Seq<char>| is_icon(path)),
            i <= files@.len(),
            are_icons_in_order(text_parts::texts(icons@), all.take(i as int)),
        decreases files@.len() - i,
    {
        proof {
            assert(all.take(i + 1) =~= all.take(i as int).push(files@[i as int]@));
            all.take(i as int).lemma_filter_push(files@[i as int]@, wanted);
            icons_among(all.take(i as int)).to_multiset_ensures();
        }
        if is_icon_file(files[i].as_str()) {
            insert_in_order(&mut icons, files[i].as_str());
        }
        i = i + 1;
    }
    proof {
        assert(all.take(i as int) =~= all);
    }
    let mut r: Vec<String> = Vec::new();
    let mut k: usize = 0;
    while k < named.len()
        invariant
            k <= named@.len(),
            r@.len() == k,
            forall|j: int| 0 <= j < k ==> (#[trigger] r@[j])@ == named@[j]@,
        decreases named@.len() - k,
    {
        r.push(named[k].clone());
        k = k + 1;
    }
    let ghost back = text_parts::texts(icons@);
    r.append(&mut icons);
    proof {
        assert(text_parts::texts(r@).take(named@.len() as int) =~= text_parts::texts(named@));
        assert(text_parts::texts(r@).skip(named@.len() as int) =~= back);
    }
    r
}

/// A number is written by its digits to the base of sixteen, the highest first, with small
/// letters: sixteen times a number and a digit more is the number with that digit behind it.
pub proof fn numbers_are_written_by_sixteens(v: int, d: int, n: int)
    requires
        0 <= v,
        0 <= d < 16,
        0 <= n,
    ensures
        hex(16 * v + d, n + 1) == hex(v, n).push("0123456789abcdef"@[d]),
        hex(v, 0).len() == 0,
{
    reveal_strlit("0123456789abcdef");
    assert((16 * v + d) / 16 == v && (16 * v + d) % 16 == d);
}

} // verus!
