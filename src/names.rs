use vstd::prelude::*;
use vstd::string::StringSliceAdditionalSpecFns;

verus! {

/// Index of the last `c` among the first `i` bytes of `b`, or -1.
pub open spec fn last_of(b: Seq<u8>, c: u8, i: int) -> int
    decreases i,
{
    if i <= 0 {
        -1
    } else if b[i - 1] == c {
        i - 1
    } else {
        last_of(b, c, i - 1)
    }
}

/// The file name: what follows the last '/'.
pub open spec fn file_name(p: Seq<u8>) -> Seq<u8> {
    p.subrange(last_of(p, 0x2F, p.len() as int) + 1, p.len() as int)
}

/// The extension of a file name: what follows its last '.', unless that dot is
/// the first byte (a hidden file) or there is none.
pub open spec fn extension(name: Seq<u8>) -> Option<Seq<u8>> {
    let dot = last_of(name, 0x2E, name.len() as int);
    if dot <= 0 {
        None
    } else {
        Some(name.subrange(dot + 1, name.len() as int))
    }
}

/// ASCII lower case of one byte.
pub open spec fn lower(b: u8) -> u8 {
    if 0x41 <= b <= 0x5A { (b + 32) as u8 } else { b }
}

/// `e` equals the lower-case word `w` without regard to ASCII case.
pub open spec fn same_word(e: Seq<u8>, w: Seq<u8>) -> bool {
    e.len() == w.len() && forall|i: int| 0 <= i < e.len() ==> lower(#[trigger] e[i]) == w[i]
}

/// The extensions of the formats the decoders handle.
pub open spec fn known_extensions() -> Seq<Seq<u8>> {
    seq![
        seq![0x6Au8, 0x70, 0x67],
        seq![0x6Au8, 0x70, 0x65, 0x67],
        seq![0x70u8, 0x6E, 0x67],
        seq![0x67u8, 0x69, 0x66],
        seq![0x77u8, 0x65, 0x62, 0x70],
        seq![0x62u8, 0x6D, 0x70],
        seq![0x74u8, 0x69, 0x66, 0x66],
        seq![0x74u8, 0x69, 0x66],
        seq![0x73u8, 0x76, 0x67],
        seq![0x61u8, 0x76, 0x69, 0x66],
        seq![0x68u8, 0x65, 0x69, 0x63],
        seq![0x68u8, 0x65, 0x69, 0x66],
        seq![0x6Au8, 0x78, 0x6C],
    ]
}

/// The path names a file of a supported format, judged by its extension alone.
pub open spec fn supported_path(p: Seq<u8>) -> bool {
    match extension(file_name(p)) {
        None => false,
        Some(e) => exists|k: int| 0 <= k < known_extensions().len() && same_word(e, #[trigger] known_extensions()[k]),
    }
}

fn lower_byte(b: u8) -> (r: u8)
    ensures
        r == lower(b),
{
    if 0x41 <= b && b <= 0x5A { b + 32 } else { b }
}

proof fn lemma_last_of_below(b: Seq<u8>, c: u8, i: int)
    ensures
        -1 <= last_of(b, c, i) < if i > 0 { i } else { 0 },
    decreases i,
{
    if i > 0 && b[i - 1] != c {
        lemma_last_of_below(b, c, i - 1);
    }
}

/// Index of the last `c` in `b[..i]`, or `None`.
fn find_last(b: &[u8], c: u8, i: usize) -> (r: Option<usize>)
    requires
        i <= b@.len(),
    ensures
        r matches Some(k) ==> last_of(b@, c, i as int) == k as int && k < i,
        r is None ==> last_of(b@, c, i as int) == -1,
{
    let mut j: usize = i;
    while j > 0
        invariant
            j <= i <= b@.len(),
            last_of(b@, c, i as int) == last_of(b@, c, j as int),
        decreases j,
    {
        if b[j - 1] == c {
            proof { lemma_last_of_below(b@, c, i as int); }
            return Some(j - 1);
        }
        j = j - 1;
    }
    None
}

/// Whether `b[start..]` spells the word `w` in any ASCII case.
fn word_at(b: &[u8], start: usize, w: &[u8]) -> (r: bool)
    requires
        start <= b@.len(),
    ensures
        r == same_word(b@.subrange(start as int, b@.len() as int), w@),
{
    let ghost e = b@.subrange(start as int, b@.len() as int);
    if b.len() - start != w.len() {
        return false;
    }
    let bl: usize = b.len();
    let mut i: usize = 0;
    while i < w.len()
        invariant
            e == b@.subrange(start as int, b@.len() as int),
            start <= b@.len(),
            bl == b@.len(),
            b@.len() - start == w@.len(),
            e.len() == w@.len(),
            0 <= i <= w@.len(),
            forall|k: int| 0 <= k < i ==> lower(#[trigger] e[k]) == w@[k],
        decreases w@.len() - i,
    {
        if lower_byte(b[start + i]) != w[i] {
            assert(lower(e[i as int]) != w@[i as int]);
            return false;
        }
        i = i + 1;
    }
    true
}

/// Whether the path names a file whose extension (in any ASCII case) is one of
/// jpg, jpeg, png, gif, webp, bmp, tiff, tif, svg, avif, heic, heif, jxl.
pub fn is_supported_image(path: &str) -> (r: bool)
    ensures
        r == supported_path(path.spec_bytes()),
{
    let b = path.as_bytes();
    let len: usize = b.len();
    let start: usize = match find_last(b, 0x2F, len) {
        Some(k) => k + 1,
        None => 0,
    };
    let name = vstd::slice::slice_subrange(b, start, len);
    let dot: usize = match find_last(name, 0x2E, name.len()) {
        Some(k) => k,
        None => return false,
    };
    if dot == 0 {
        return false;
    }
    let words: [&[u8]; 13] = [
        &[0x6A, 0x70, 0x67],
        &[0x6A, 0x70, 0x65, 0x67],
        &[0x70, 0x6E, 0x67],
        &[0x67, 0x69, 0x66],
        &[0x77, 0x65, 0x62, 0x70],
        &[0x62, 0x6D, 0x70],
        &[0x74, 0x69, 0x66, 0x66],
        &[0x74, 0x69, 0x66],
        &[0x73, 0x76, 0x67],
        &[0x61, 0x76, 0x69, 0x66],
        &[0x68, 0x65, 0x69, 0x63],
        &[0x68, 0x65, 0x69, 0x66],
        &[0x6A, 0x78, 0x6C],
    ];
    let ghost e = name@.subrange(dot + 1, name@.len() as int);
    assert(name@ == file_name(b@));
    assert(extension(file_name(b@)) == Some(e));
    let nl: usize = name.len();
    let mut k: usize = 0;
    while k < 13
        invariant
            0 <= k <= 13,
            nl == name@.len(),
            b@ == path.spec_bytes(),
            extension(file_name(b@)) == Some(e),
            e == name@.subrange(dot + 1, name@.len() as int),
            dot < name@.len(),
            forall|j: int| 0 <= j < 13 ==> (#[trigger] words@[j])@ == known_extensions()[j],
            forall|j: int| 0 <= j < k ==> !same_word(e, #[trigger] known_extensions()[j]),
        decreases 13 - k,
    {
        if word_at(name, dot + 1, words[k]) {
            assert(same_word(e, known_extensions()[k as int]));
            return true;
        }
        k = k + 1;
    }
    false
}

/// Deepest directory level a scan descends to.
pub const MAX_DIR_DEPTH: u32 = 64;

/// What a directory scan does with one entry.
#[derive(Clone, Copy, PartialEq, Eq, Structural, Debug)]
pub enum ScanAction {
    /// Leave it out.
    Skip,
    /// List the directory, at the given depth.
    Descend(u32),
    /// Add the file to the result.
    Collect,
}

/// The scan's decision for an entry met at `depth`: symbolic links are never
/// followed, directories are entered only below the depth limit, and files are
/// kept when their extension is supported.
pub open spec fn scan_decision(depth: u32, is_symlink: bool, is_dir: bool, path: Seq<u8>) -> ScanAction {
    if is_symlink {
        ScanAction::Skip
    } else if is_dir {
        if depth + 1 < MAX_DIR_DEPTH { ScanAction::Descend((depth + 1) as u32) } else { ScanAction::Skip }
    } else if supported_path(path) {
        ScanAction::Collect
    } else {
        ScanAction::Skip
    }
}

/// Decides what the scan does with an entry of a directory listed at `depth`.
pub fn scan_action(depth: u32, is_symlink: bool, is_dir: bool, path: &str) -> (r: ScanAction)
    requires
        depth < MAX_DIR_DEPTH,
    ensures
        r == scan_decision(depth, is_symlink, is_dir, path.spec_bytes()),
{
    if is_symlink {
        ScanAction::Skip
    } else if is_dir {
        if depth + 1 < MAX_DIR_DEPTH { ScanAction::Descend(depth + 1) } else { ScanAction::Skip }
    } else if is_supported_image(path) {
        ScanAction::Collect
    } else {
        ScanAction::Skip
    }
}

/// A scan never follows a symbolic link, whatever it points to (a cycle
/// included), and every directory it enters lies one level deeper and within the
/// depth limit, so the nesting of listings is bounded.
pub proof fn law_scan_is_bounded(depth: u32, is_symlink: bool, is_dir: bool, path: Seq<u8>)
    requires
        depth < MAX_DIR_DEPTH,
    ensures
        is_symlink ==> scan_decision(depth, is_symlink, is_dir, path) == ScanAction::Skip,
        scan_decision(depth, is_symlink, is_dir, path) matches ScanAction::Descend(d) ==> d == depth
            + 1 && d < MAX_DIR_DEPTH && !is_symlink,
        scan_decision(depth, is_symlink, is_dir, path) == ScanAction::Collect ==> !is_symlink && !is_dir,
{
}

} // verus!
