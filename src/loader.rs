use crate::formats::{path_format, path_format_of, sniff_format, sniffed_format_of, Format};
use crate::frames::{Frame, ImageSet};
use vstd::prelude::*;

verus! {

/// Why images could not be collected or loaded.
pub enum ImageLoaderError {
    /// Reading a file failed.
    IOError(Box<std::io::Error>),
    /// The image crate could not recognise or decode a file.
    ImageError(Box<image::ImageError>),
    /// A path given by the user names nothing that can be read.
    InvalidPath(String),
    /// No image remained after every path was looked at.
    NoImageFound,
    /// A GIF decoded to no frame at all.
    EmptyAnimation,
}

/// The way the cursor moves through the collected paths.
#[derive(Copy, Clone, Debug, PartialEq, Eq, Structural)]
pub enum Direction {
    Forward,
    Backward,
}

/// What a directory entry is.
#[derive(Copy, Clone, Debug, PartialEq, Eq, Structural)]
pub enum EntryKind {
    File,
    Dir,
    Other,
}

/// One entry met while walking a directory, in the order the walk met it.
/// `depth` is 0 for the directory's own entries, 1 for those of its
/// subdirectories, and so on; a subdirectory's entries follow the
/// subdirectory itself. For a file, `probe` holds its leading bytes (at
/// least `PROBE_LEN` of them where the file is that long), or `None` where
/// it could not be opened and read.
pub struct DirEntry {
    pub path: String,
    pub kind: EntryKind,
    pub depth: usize,
    pub probe: Option<Vec<u8>>,
}

/// How many leading bytes of a file the format probe needs: more than the
/// longest signature the decoder knows.
pub const PROBE_LEN: usize = 16;

/// Whether the format probe recognises a file: its leading bytes match
/// the signature of a known format.
pub open spec fn probe_recognises(leading: Seq<u8>) -> bool {
    sniffed_format_of(leading) is Some
}

/// What a path given by the user turned out to be on disk.
pub enum PathKind {
    /// Nothing exists there.
    Missing,
    /// A regular file.
    File,
    /// A directory, with the entries of its walk, or `None` where it could
    /// not be read.
    Directory(Option<Vec<DirEntry>>),
    /// Something else, such as a device.
    Other,
}

/// A path given by the user, and what it is.
pub struct PathInput {
    pub path: String,
    pub kind: PathKind,
}

/// Whether a directory entry is taken as an image: a file that could be
/// read and whose format the probe recognises, at the top level unless the
/// walk recurses.
pub open spec fn selected(e: DirEntry, recurse: bool) -> bool {
    &&& e.kind == EntryKind::File
    &&& e.probe matches Some(b) && probe_recognises(b@)
    &&& (recurse || e.depth == 0)
}

/// The paths of the entries of `es` that are taken as images, in order.
pub open spec fn dir_images(es: Seq<DirEntry>, recurse: bool) -> Seq<Seq<char>>
    decreases es.len(),
{
    if es.len() == 0 {
        seq![]
    } else {
        let rest = dir_images(es.drop_last(), recurse);
        if selected(es.last(), recurse) {
            rest.push(es.last().path@)
        } else {
            rest
        }
    }
}

/// The image paths that one user path contributes: a file always, a
/// readable directory its selected entries, anything else nothing.
pub open spec fn input_candidates(p: PathInput, recurse: bool) -> Seq<Seq<char>> {
    match p.kind {
        PathKind::File => seq![p.path@],
        PathKind::Directory(Some(es)) => dir_images(es@, recurse),
        _ => seq![],
    }
}

/// The contributions of all user paths, in order.
pub open spec fn all_candidates(ps: Seq<PathInput>, recurse: bool) -> Seq<Seq<char>>
    decreases ps.len(),
{
    if ps.len() == 0 {
        seq![]
    } else {
        all_candidates(ps.drop_last(), recurse) + input_candidates(ps.last(), recurse)
    }
}

/// `s` with every repeated element after its first occurrence removed.
pub open spec fn unique(s: Seq<Seq<char>>) -> Seq<Seq<char>>
    decreases s.len(),
{
    if s.len() == 0 {
        seq![]
    } else {
        let rest = unique(s.drop_last());
        if rest.contains(s.last()) {
            rest
        } else {
            rest.push(s.last())
        }
    }
}

/// The paths collected from the user's paths.
pub open spec fn collected(ps: Seq<PathInput>, recurse: bool) -> Seq<Seq<char>> {
    unique(all_candidates(ps, recurse))
}

/// The index a move starts from: from no cursor, the first path; else the
/// neighbour in `dir`, where there is one.
pub open spec fn candidate(len: int, from: Option<int>, dir: Direction) -> Option<int> {
    let k = match from {
        None => 0,
        Some(c) => if dir == Direction::Forward {
            c + 1
        } else {
            c - 1
        },
    };
    if 0 <= k < len {
        Some(k)
    } else {
        None
    }
}

/// Where a move that starts at candidate `k` settles, given which paths
/// decode (`ok`): the first decodable index from `k` on in `dir`, if any.
pub open spec fn seek(ok: Seq<bool>, k: int, dir: Direction) -> Option<int>
    decreases (if dir == Direction::Forward {
        ok.len() - k
    } else {
        k + 1
    }),
{
    if !(0 <= k < ok.len()) {
        None
    } else if ok[k] {
        Some(k)
    } else {
        match candidate(ok.len() as int, Some(k), dir) {
            Some(n) => seek(ok, n, dir),
            None => None,
        }
    }
}

/// Where the cursor rests after a move in `dir` from `cursor`; `None` when
/// no decodable path lies that way and the cursor stays.
pub open spec fn advance(ok: Seq<bool>, cursor: Option<int>, dir: Direction) -> Option<int> {
    match candidate(ok.len() as int, cursor, dir) {
        Some(k) => seek(ok, k, dir),
        None => None,
    }
}

/// A cursor over the collected image paths. It rests only on a path that
/// decoded: a move (`begin_move`, then `after_attempt` for each candidate)
/// tries candidates one after the other and settles on the first that
/// decodes.
pub struct ImageLoader {
    images: Vec<String>,
    current_image: Option<usize>,
}

pub open spec fn string_views(v: Seq<String>) -> Seq<Seq<char>> {
    v.map_values(|s: String| s@)
}

impl ImageLoader {
    pub closed spec fn paths(&self) -> Seq<Seq<char>> {
        string_views(self.images@)
    }

    pub closed spec fn cursor(&self) -> Option<int> {
        match self.current_image {
            Some(i) => Some(i as int),
            None => None,
        }
    }

    pub open spec fn well_formed(&self) -> bool {
        &&& self.paths().len() > 0
        &&& self.cursor() matches Some(c) ==> 0 <= c < self.paths().len()
    }

    /// Whether a file of a directory walk is an image: `Ok(true)` where the
    /// format probe recognises it, `Ok(false)` where not, and an
    /// `InvalidPath` error where it could not be read.
    pub fn is_image(entry: &DirEntry) -> (r: Result<bool, ImageLoaderError>)
        ensures
            match entry.probe {
                Some(b) => r == Ok::<bool, ImageLoaderError>(probe_recognises(b@)),
                None => r matches Err(ImageLoaderError::InvalidPath(p)) && p@ == entry.path@,
            },
    {
        match &entry.probe {
            None => Err(ImageLoaderError::InvalidPath(entry.path.clone())),
            Some(b) => Ok(sniff_format(b.as_slice()).is_ok()),
        }
    }

    /// The image paths among the entries of a directory walk, in walk
    /// order: every file taken as an image, and only those at the top level
    /// unless `recurse`.
    pub fn find_images(entries: &Vec<DirEntry>, recurse: bool) -> (r: Vec<String>)
        ensures
            string_views(r@) == dir_images(entries@, recurse),
    {
        let mut images: Vec<String> = Vec::new();
        let mut i: usize = 0;
        while i < entries.len()
            invariant
                i <= entries@.len(),
                string_views(images@) == dir_images(entries@.take(i as int), recurse),
            decreases entries@.len() - i,
        {
            let e = &entries[i];
            proof {
                assert(entries@.take(i + 1).drop_last() =~= entries@.take(i as int));
                assert(entries@.take(i + 1).last() == entries@[i as int]);
            }
            let keep = if e.kind == EntryKind::File && (recurse || e.depth == 0) {
                match Self::is_image(e) {
                    Ok(known) => known,
                    Err(_) => false,
                }
            } else {
                false
            };
            if keep {
                let ghost before = images@;
                images.push(e.path.clone());
                proof {
                    assert(string_views(images@) =~= string_views(before).push(e.path@));
                }
            }
            i = i + 1;
        }
        proof {
            assert(entries@.take(i as int) =~= entries@);
        }
        images
    }

    /// Collects the images of the user's paths: each file as given, the
    /// images of each readable directory, in order and without repeats.
    /// Missing and unreadable paths are passed over; fails with
    /// `NoImageFound` only where nothing is left.
    pub fn from_paths(paths: &Vec<PathInput>, recurse: bool) -> (r: Result<Self, ImageLoaderError>)
        ensures
            collected(paths@, recurse).len() == 0 <==> r matches Err(ImageLoaderError::NoImageFound),
            r is Ok <==> collected(paths@, recurse).len() > 0,
            r matches Ok(l) ==> l.well_formed() && l.paths() == collected(paths@, recurse)
                && l.cursor() is None,
    {
        let mut candidates: Vec<String> = Vec::new();
        let mut i: usize = 0;
        while i < paths.len()
            invariant
                i <= paths@.len(),
                string_views(candidates@) == all_candidates(paths@.take(i as int), recurse),
            decreases paths@.len() - i,
        {
            let p = &paths[i];
            proof {
                assert(paths@.take(i + 1).drop_last() =~= paths@.take(i as int));
                assert(paths@.take(i + 1).last() == paths@[i as int]);
            }
            let ghost before = candidates@;
            match &p.kind {
                PathKind::File => {
                    candidates.push(p.path.clone());
                    proof {
                        assert(string_views(candidates@) =~= string_views(before) + seq![p.path@]);
                    }
                },
                PathKind::Directory(Some(entries)) => {
                    let mut found = Self::find_images(entries, recurse);
                    let ghost added = found@;
                    candidates.append(&mut found);
                    proof {
                        assert(candidates@ =~= before + added);
                        assert(string_views(candidates@) =~= string_views(before) + string_views(added));
                    }
                },
                _ => {
                    proof {
                        assert(string_views(candidates@) =~= string_views(before) + seq![]);
                    }
                },
            }
            i = i + 1;
        }
        proof {
            assert(paths@.take(i as int) =~= paths@);
        }
        let images = unique_paths(&candidates);
        if images.len() == 0 {
            Err(ImageLoaderError::NoImageFound)
        } else {
            Ok(ImageLoader { images, current_image: None })
        }
    }

    /// The number of collected paths.
    pub fn len(&self) -> (r: usize)
        ensures
            r == self.paths().len(),
    {
        self.images.len()
    }

    /// The collected path at `index`.
    pub fn path(&self, index: usize) -> (r: &String)
        requires
            index < self.paths().len(),
        ensures
            r@ == self.paths()[index as int],
    {
        &self.images[index]
    }

    /// The index of the image shown now, if any.
    pub fn current(&self) -> (r: Option<usize>)
        ensures
            r matches Some(i) ==> self.cursor() == Some(i as int),
            r is None ==> self.cursor() is None,
    {
        self.current_image
    }

    /// The next candidate of a move in `dir`: from `from`, the neighbour in
    /// that direction, or the first path where `from` is `None`. Returns
    /// `None` past either end: the move then gives up and the cursor stays.
    /// A move starts from the cursor and, after each candidate that fails
    /// to decode, goes on from that candidate.
    pub fn iterate(&self, from: Option<usize>, dir: Direction) -> (r: Option<usize>)
        requires
            from matches Some(f) ==> f < self.paths().len(),
        ensures
            r matches Some(k) ==> candidate(self.paths().len() as int, from_index(from), dir) == Some(k as int),
            r is None ==> candidate(self.paths().len() as int, from_index(from), dir) is None,
    {
        let len = self.images.len();
        match from {
            None => if len > 0 {
                Some(0)
            } else {
                None
            },
            Some(c) => match dir {
                Direction::Forward => if c + 1 < len {
                    Some(c + 1)
                } else {
                    None
                },
                Direction::Backward => if c > 0 {
                    Some(c - 1)
                } else {
                    None
                },
            },
        }
    }

    /// Rests the cursor on `index`, whose image decoded.
    pub fn settle(&mut self, index: usize)
        requires
            index < old(self).paths().len(),
        ensures
            final(self).paths() == old(self).paths(),
            final(self).cursor() == Some(index as int),
    {
        self.current_image = Some(index);
    }
}

/// The decoded frames of an animation as an image set; an animation needs
/// at least one frame.
pub fn animation(frames: Vec<Frame>) -> (r: Result<ImageSet, ImageLoaderError>)
    ensures
        frames@.len() == 0 ==> r matches Err(ImageLoaderError::EmptyAnimation),
        frames@.len() > 0 ==> r == Ok::<ImageSet, ImageLoaderError>(ImageSet::Animated(frames)),
{
    if frames.len() == 0 {
        Err(ImageLoaderError::EmptyAnimation)
    } else {
        Ok(ImageSet::Animated(frames))
    }
}

/// How the bytes of an image file are to be decoded.
#[derive(Copy, Clone, Debug, PartialEq, Eq, Structural)]
pub enum Decoding {
    /// Every frame of a GIF animation.
    Animation,
    /// One still raster, in the format the leading bytes show.
    Still,
    /// One still raster, in the format the file's extension names, for
    /// formats without a signature such as TGA.
    StillAsPathFormat,
}

/// Decides how to decode the image `bytes` read from the file at `path`.
/// The format is told by the leading bytes, or where no signature matches,
/// by the path's extension; a GIF is decoded as an animation, anything else
/// as one still raster. Fails where neither tells a format.
pub fn choose_decoding(path: &str, bytes: &[u8]) -> (r: Result<Decoding, ImageLoaderError>)
    ensures
        match sniffed_format_of(bytes@) {
            Some(Format::Gif) => r == Ok::<Decoding, ImageLoaderError>(Decoding::Animation),
            Some(_) => r == Ok::<Decoding, ImageLoaderError>(Decoding::Still),
            None => match path_format_of(path@) {
                None => r matches Err(ImageLoaderError::ImageError(_)),
                Some(Format::Gif) => r == Ok::<Decoding, ImageLoaderError>(Decoding::Animation),
                Some(_) => r == Ok::<Decoding, ImageLoaderError>(Decoding::StillAsPathFormat),
            },
        },
{
    match sniff_format(bytes) {
        Ok(Format::Gif) => Ok(Decoding::Animation),
        Ok(_) => Ok(Decoding::Still),
        Err(e) => match path_format(path) {
            Err(_) => Err(ImageLoaderError::ImageError(Box::new(e))),
            Ok(Format::Gif) => Ok(Decoding::Animation),
            Ok(_) => Ok(Decoding::StillAsPathFormat),
        },
    }
}

/// A directory walk keeps exactly its entries that are image files: with
/// `recurse` every such file at any depth, without it only those at the
/// top level. Files that are not images are never kept.
pub proof fn lemma_directory_scan(es: Seq<DirEntry>, recurse: bool, p: Seq<char>)
    ensures
        dir_images(es, recurse).contains(p) <==> exists|i: int|
            0 <= i < es.len() && #[trigger] es[i].path@ == p && es[i].kind == EntryKind::File
                && (es[i].probe matches Some(b) && probe_recognises(b@)) && (recurse || es[i].depth == 0),
    decreases es.len(),
{
    if es.len() > 0 {
        let init = es.drop_last();
        lemma_directory_scan(init, recurse, p);
        let rest = dir_images(init, recurse);
        let last = es.last();
        if dir_images(es, recurse).contains(p) {
            let w = choose|w: int| 0 <= w < dir_images(es, recurse).len() && dir_images(es, recurse)[w] == p;
            if selected(last, recurse) && w == rest.len() {
                assert(es[es.len() - 1].path@ == p);
            } else {
                assert(rest[w] == p);
                assert(rest.contains(p));
                let i = choose|i: int|
                    0 <= i < init.len() && #[trigger] init[i].path@ == p && init[i].kind == EntryKind::File
                        && (init[i].probe matches Some(b) && probe_recognises(b@)) && (recurse || init[i].depth == 0);
                assert(es[i] == init[i]);
            }
        }
        if exists|i: int|
            0 <= i < es.len() && #[trigger] es[i].path@ == p && es[i].kind == EntryKind::File
                && (es[i].probe matches Some(b) && probe_recognises(b@)) && (recurse || es[i].depth == 0) {
            let i = choose|i: int|
                0 <= i < es.len() && #[trigger] es[i].path@ == p && es[i].kind == EntryKind::File
                    && (es[i].probe matches Some(b) && probe_recognises(b@)) && (recurse || es[i].depth == 0);
            if i == es.len() - 1 {
                assert(dir_images(es, recurse)[rest.len() as int] == p);
            } else {
                assert(init[i] == es[i]);
                assert(rest.contains(p));
                let w = choose|w: int| 0 <= w < rest.len() && rest[w] == p;
                assert(dir_images(es, recurse)[w] == p);
            }
        }
    }
}

proof fn lemma_unique(s: Seq<Seq<char>>)
    ensures
        unique(s).no_duplicates(),
        forall|x: Seq<char>| #[trigger] unique(s).contains(x) <==> s.contains(x),
    decreases s.len(),
{
    if s.len() > 0 {
        let init = s.drop_last();
        lemma_unique(init);
        let rest = unique(init);
        assert forall|x: Seq<char>| #[trigger] unique(s).contains(x) <==> s.contains(x) by {
            if s.contains(x) {
                let w = choose|w: int| 0 <= w < s.len() && s[w] == x;
                if rest.contains(s.last()) {
                    assert(unique(s) == rest);
                } else {
                    assert(unique(s) == rest.push(s.last()));
                }
                if w < s.len() - 1 {
                    assert(init[w] == x);
                    assert(init.contains(x));
                    assert(unique(init).contains(x));
                    let v = choose|v: int| 0 <= v < rest.len() && rest[v] == x;
                    assert(unique(s)[v] == x);
                } else if !rest.contains(s.last()) {
                    assert(unique(s)[rest.len() as int] == x);
                }
            }
            if unique(s).contains(x) {
                let v = choose|v: int| 0 <= v < unique(s).len() && unique(s)[v] == x;
                if v < rest.len() {
                    assert(rest[v] == x);
                    assert(rest.contains(x));
                    let w = choose|w: int| 0 <= w < init.len() && init[w] == x;
                    assert(s[w] == x);
                } else {
                    assert(s[s.len() - 1] == x);
                }
            }
        }
    }
}

/// Collecting one directory keeps exactly its entries that are image files
/// (with `recurse`, at any depth; without it, at the top level only), each
/// once, and nothing else.
pub proof fn lemma_collect_directory(d: PathInput, es: Seq<DirEntry>, recurse: bool, p: Seq<char>)
    requires
        d.kind matches PathKind::Directory(Some(v)) && v@ == es,
    ensures
        collected(seq![d], recurse).no_duplicates(),
        collected(seq![d], recurse).contains(p) <==> exists|i: int|
            0 <= i < es.len() && #[trigger] es[i].path@ == p && es[i].kind == EntryKind::File
                && (es[i].probe matches Some(b) && probe_recognises(b@)) && (recurse || es[i].depth == 0),
{
    let ps = seq![d];
    assert(ps.drop_last() =~= Seq::<PathInput>::empty());
    assert(ps.last() == d);
    assert(all_candidates(Seq::<PathInput>::empty(), recurse) == Seq::<Seq<char>>::empty());
    assert(input_candidates(d, recurse) == dir_images(es, recurse));
    assert(all_candidates(ps, recurse) =~= dir_images(es, recurse));
    lemma_unique(dir_images(es, recurse));
    lemma_directory_scan(es, recurse, p);
}

proof fn lemma_seek_forward(ok: Seq<bool>, k: int)
    ensures
        seek(ok, k, Direction::Forward) matches Some(j) ==> k <= j < ok.len() && ok[j]
            && forall|i: int| k <= i < j ==> !ok[i],
    decreases ok.len() - k,
{
    if 0 <= k < ok.len() && !ok[k] && k + 1 < ok.len() {
        lemma_seek_forward(ok, k + 1);
    }
}

proof fn lemma_seek_rests_on_decodable(ok: Seq<bool>, k: int, dir: Direction)
    ensures
        seek(ok, k, dir) matches Some(j) ==> 0 <= j < ok.len() && ok[j],
    decreases (if dir == Direction::Forward {
        ok.len() - k
    } else {
        k + 1
    }),
{
    if 0 <= k < ok.len() && !ok[k] {
        if let Some(n) = candidate(ok.len() as int, Some(k), dir) {
            lemma_seek_rests_on_decodable(ok, n, dir);
        }
    }
}

/// A move never leaves the cursor on a path that failed to decode: where
/// it settles, the path decodes.
pub proof fn lemma_move_rests_on_decodable(ok: Seq<bool>, cursor: Option<int>, dir: Direction)
    ensures
        advance(ok, cursor, dir) matches Some(j) ==> 0 <= j < ok.len() && ok[j],
{
    if let Some(k) = candidate(ok.len() as int, cursor, dir) {
        lemma_seek_rests_on_decodable(ok, k, dir);
    }
}

proof fn lemma_seek_backward_reaches(ok: Seq<bool>, k: int, c: int)
    requires
        0 <= c <= k < ok.len(),
        ok[c],
        forall|i: int| c < i <= k ==> !ok[i],
    ensures
        seek(ok, k, Direction::Backward) == Some(c),
    decreases k - c,
{
    if k > c {
        lemma_seek_backward_reaches(ok, k - 1, c);
    }
}

/// A move forward and then a move back return to the image one started
/// from, as long as the forward move found an image and no file changed
/// in between (`ok` tells which paths decode).
pub proof fn lemma_forward_then_back(ok: Seq<bool>, c: int)
    requires
        0 <= c < ok.len(),
        ok[c],
        advance(ok, Some(c), Direction::Forward) is Some,
    ensures
        advance(ok, advance(ok, Some(c), Direction::Forward), Direction::Backward) == Some(c),
{
    lemma_seek_forward(ok, c + 1);
    let j = advance(ok, Some(c), Direction::Forward)->Some_0;
    assert(c < j);
    lemma_seek_backward_reaches(ok, j - 1, c);
}

/// The decode outcomes in `outcomes` are those of `ok`.
pub open spec fn agrees(ok: Seq<bool>, outcomes: Map<int, bool>) -> bool {
    forall|i: int| #[trigger] outcomes.dom().contains(i) ==> 0 <= i < ok.len() && ok[i] == outcomes[i]
}

/// A move through the paths in progress. It is begun from the cursor
/// (`ImageLoader::begin_move`); the caller decodes each candidate it names
/// and reports the result (`ImageLoader::after_attempt`) until no candidate
/// is left. It remembers, as ghost state, the cursor it started from and
/// the decode outcomes reported so far.
pub struct Move {
    dir: Direction,
    next: Option<usize>,
    settled: Option<usize>,
    start: Ghost<Option<int>>,
    outcomes: Ghost<Map<int, bool>>,
}

impl Move {
    pub closed spec fn direction(&self) -> Direction {
        self.dir
    }

    pub closed spec fn pending(&self) -> Option<int> {
        match self.next {
            Some(k) => Some(k as int),
            None => None,
        }
    }

    pub closed spec fn landed(&self) -> Option<int> {
        match self.settled {
            Some(k) => Some(k as int),
            None => None,
        }
    }

    pub closed spec fn start(&self) -> Option<int> {
        self.start@
    }

    pub closed spec fn outcomes(&self) -> Map<int, bool> {
        self.outcomes@
    }

    /// Where the move ends for decode outcomes `ok`, given what is known.
    pub open spec fn resolves(&self, ok: Seq<bool>) -> Option<int> {
        match self.landed() {
            Some(j) => Some(j),
            None => match self.pending() {
                Some(k) => seek(ok, k, self.direction()),
                None => None,
            },
        }
    }

    /// Every index tried lies behind the pending candidate.
    pub open spec fn tried_behind(&self) -> bool {
        forall|i: int| #[trigger] self.outcomes().dom().contains(i) ==> (self.pending() matches Some(k) ==> if self.direction() == Direction::Forward {
            i < k
        } else {
            i > k
        })
    }

    /// The move is consistent with a loader holding `len` paths: for every
    /// decode outcome `ok` that agrees with what was reported, the move ends
    /// where `advance` says.
    pub open spec fn tracks(&self, len: nat) -> bool {
        &&& self.pending() matches Some(k) ==> 0 <= k < len && self.landed() is None
        &&& self.landed() matches Some(j) ==> 0 <= j < len && self.pending() is None
        &&& self.tried_behind()
        &&& forall|ok: Seq<bool>|
            ok.len() == len && #[trigger] agrees(ok, self.outcomes()) ==> advance(ok, self.start(), self.direction())
                == self.resolves(ok)
    }

    /// The move belongs to `loader`: the cursor is where the move started,
    /// or where it landed.
    pub open spec fn follows(&self, loader: &ImageLoader) -> bool {
        &&& loader.well_formed()
        &&& self.tracks(loader.paths().len())
        &&& loader.cursor() == match self.landed() {
            Some(j) => Some(j),
            None => self.start(),
        }
    }

    /// The index to decode next, or `None` when the move is over.
    pub fn candidate(&self) -> (r: Option<usize>)
        ensures
            r matches Some(k) ==> self.pending() == Some(k as int),
            r is None ==> self.pending() is None,
    {
        self.next
    }

    /// Whether the move has landed on an image: the input that asked for it
    /// was consumed exactly when it did.
    pub fn moved(&self) -> (r: bool)
        ensures
            r == self.landed() is Some,
    {
        self.settled.is_some()
    }
}

/// Once no candidate is left, the cursor is where `advance` puts it for
/// every decode outcome that agrees with the reported ones, or, where
/// `advance` finds nothing, where it was before the move.
pub proof fn lemma_finished_move(loader: &ImageLoader, m: &Move, ok: Seq<bool>)
    requires
        m.follows(loader),
        m.pending() is None,
        ok.len() == loader.paths().len(),
        agrees(ok, m.outcomes()),
    ensures
        m.landed() is Some ==> loader.cursor() == advance(ok, m.start(), m.direction()),
        m.landed() is None ==> advance(ok, m.start(), m.direction()) is None && loader.cursor() == m.start(),
{
}

/// A finished move forward that landed, followed by a finished move back,
/// brings the cursor back to where the first move started, when the
/// decode outcomes of both agree with one `ok` (no file changed between
/// them) and the start decodes.
pub proof fn lemma_moves_round_trip(
    after_forward: &ImageLoader,
    forward: &Move,
    after_back: &ImageLoader,
    back: &Move,
    ok: Seq<bool>,
)
    requires
        forward.follows(after_forward),
        forward.pending() is None,
        forward.landed() is Some,
        forward.direction() == Direction::Forward,
        forward.start() matches Some(c) && 0 <= c < ok.len() && ok[c],
        back.follows(after_back),
        back.pending() is None,
        back.direction() == Direction::Backward,
        back.start() == after_forward.cursor(),
        after_back.paths() == after_forward.paths(),
        ok.len() == after_forward.paths().len(),
        agrees(ok, forward.outcomes()),
        agrees(ok, back.outcomes()),
    ensures
        back.landed() is Some,
        after_back.cursor() == forward.start(),
{
    lemma_finished_move(after_forward, forward, ok);
    let c = forward.start()->Some_0;
    lemma_forward_then_back(ok, c);
    lemma_finished_move(after_back, back, ok);
}

impl ImageLoader {
    /// Begins a move in `dir` from the cursor.
    pub fn begin_move(&self, dir: Direction) -> (m: Move)
        requires
            self.well_formed(),
        ensures
            m.follows(self),
            m.start() == self.cursor(),
            m.direction() == dir,
            m.landed() is None,
            m.outcomes() == Map::<int, bool>::empty(),
            m.pending() == candidate(self.paths().len() as int, self.cursor(), dir),
    {
        let next = self.iterate(self.current_image, dir);
        let m = Move {
            dir,
            next,
            settled: None,
            start: Ghost(self.cursor()),
            outcomes: Ghost(Map::empty()),
        };
        proof {
            assert forall|ok: Seq<bool>|
                ok.len() == self.paths().len() && #[trigger] agrees(ok, m.outcomes()) implies advance(
                ok,
                m.start(),
                m.direction(),
            ) == m.resolves(ok) by {}
        }
        m
    }

    /// Reports whether the pending candidate of `m` decoded. If it did, the
    /// cursor rests on it and the move is over; if not, the loader is left
    /// as it was and the move goes on to the next candidate in its
    /// direction, if any.
    pub fn after_attempt(&mut self, m: &mut Move, decoded: bool)
        requires
            old(m).follows(old(self)),
            old(m).pending() is Some,
        ensures
            final(m).follows(final(self)),
            final(self).paths() == old(self).paths(),
            final(m).start() == old(m).start(),
            final(m).direction() == old(m).direction(),
            final(m).outcomes() == old(m).outcomes().insert(old(m).pending()->Some_0, decoded),
            decoded ==> final(m).landed() == old(m).pending() && final(m).pending() is None
                && final(self).cursor() == old(m).pending(),
            !decoded ==> *final(self) == *old(self) && final(m).landed() is None
                && final(m).pending() == candidate(old(self).paths().len() as int, old(m).pending(), old(m).direction()),
    {
        let k = match m.next {
            Some(k) => k,
            None => 0,
        };
        let ghost len = self.paths().len();
        let ghost before = *m;
        let ghost outcomes = m.outcomes@.insert(k as int, decoded);
        if decoded {
            self.settle(k);
            m.settled = Some(k);
            m.next = None;
        } else {
            m.next = self.iterate(Some(k), m.dir);
        }
        m.outcomes = Ghost(outcomes);
        proof {
            assert forall|i: int| #[trigger] m.outcomes().dom().contains(i) implies (m.pending() matches Some(n)
                ==> if m.direction() == Direction::Forward {
                i < n
            } else {
                i > n
            }) by {
                if i != k {
                    assert(before.outcomes().dom().contains(i));
                }
            }
            assert forall|ok: Seq<bool>|
                ok.len() == len && #[trigger] agrees(ok, m.outcomes()) implies advance(ok, m.start(), m.direction())
                == m.resolves(ok) by {
                assert(!before.outcomes().dom().contains(k as int));
                assert forall|i: int| #[trigger] before.outcomes().dom().contains(i) implies 0 <= i < ok.len()
                    && ok[i] == before.outcomes()[i] by {
                    assert(m.outcomes().dom().contains(i));
                }
                assert(agrees(ok, before.outcomes()));
                assert(m.outcomes().dom().contains(k as int));
                assert(ok[k as int] == decoded);
            }
        }
    }
}

pub open spec fn from_index(from: Option<usize>) -> Option<int> {
    match from {
        Some(f) => Some(f as int),
        None => None,
    }
}

/// `paths` without repeats, each kept where it first occurs.
fn unique_paths(paths: &Vec<String>) -> (r: Vec<String>)
    ensures
        string_views(r@) == unique(string_views(paths@)),
{
    let mut r: Vec<String> = Vec::new();
    let mut i: usize = 0;
    while i < paths.len()
        invariant
            i <= paths@.len(),
            string_views(r@) == unique(string_views(paths@.take(i as int))),
        decreases paths@.len() - i,
    {
        let p = &paths[i];
        let mut seen = false;
        let mut j: usize = 0;
        while j < r.len()
            invariant
                j <= r@.len(),
                seen <==> string_views(r@.take(j as int)).contains(p@),
            decreases r@.len() - j,
        {
            let ghost prefix = string_views(r@.take(j as int));
            proof {
                assert(string_views(r@.take(j + 1)) =~= prefix.push(r@[j as int]@));
            }
            if r[j] == *p {
                seen = true;
            }
            proof {
                let next = prefix.push(r@[j as int]@);
                if r@[j as int]@ == p@ {
                    assert(next[j as int] == p@);
                } else if prefix.contains(p@) {
                    let w = choose|w: int| 0 <= w < prefix.len() && prefix[w] == p@;
                    assert(next[w] == p@);
                } else {
                    assert forall|w: int| 0 <= w < next.len() implies next[w] != p@ by {
                        if w < prefix.len() {
                            assert(prefix[w] != p@);
                        }
                    }
                }
            }
            j = j + 1;
        }
        proof {
            assert(r@.take(j as int) =~= r@);
            assert(string_views(paths@.take(i + 1)).drop_last() =~= string_views(paths@.take(i as int)));
            assert(string_views(paths@.take(i + 1)).last() == p@);
        }
        if !seen {
            let ghost before = r@;
            r.push(p.clone());
            proof {
                assert(string_views(r@) =~= string_views(before).push(p@));
            }
        }
        i = i + 1;
    }
    proof {
        assert(paths@.take(i as int) =~= paths@);
    }
    r
}

} // verus!
