use vstd::prelude::*;

verus! {

/// The different atlas image types.
#[derive(Debug, Copy, Clone, PartialEq, Eq, Structural)]
pub enum AtlasImage {
    /// atlas image type: PNG
    Png,
    /// atlas image type: TGA
    Tga,
    /// atlas image type: TIFF
    Tiff,
    /// atlas image type: Webp
    Webp,
}

/// The file extension that belongs to an atlas image type.
pub open spec fn atlas_image_extension(atlas_image: AtlasImage) -> Seq<char> {
    match atlas_image {
        AtlasImage::Png => "png"@,
        AtlasImage::Tga => "tga"@,
        AtlasImage::Tiff => "tiff"@,
        AtlasImage::Webp => "webp"@,
    }
}

/// The file extension of an atlas image type in upper case.
pub open spec fn atlas_image_extension_upper(atlas_image: AtlasImage) -> Seq<char> {
    match atlas_image {
        AtlasImage::Png => "PNG"@,
        AtlasImage::Tga => "TGA"@,
        AtlasImage::Tiff => "TIFF"@,
        AtlasImage::Webp => "WEBP"@,
    }
}

/// The extension `ext`, with ASCII letters in either case, is that of the
/// atlas image type.
pub open spec fn names_image_type(ext: Seq<char>, atlas_image: AtlasImage) -> bool {
    let lo = atlas_image_extension(atlas_image);
    let up = atlas_image_extension_upper(atlas_image);
    &&& ext.len() == lo.len()
    &&& forall|i: int| 0 <= i < ext.len() ==> #[trigger] ext[i] == lo[i] || ext[i] == up[i]
}

/// Whether the file extension `ext`, ignoring ASCII case, is that of
/// `atlas_image`: an image of that type may be saved under it.
pub fn extension_names_image_type(ext: &str, atlas_image: AtlasImage) -> (r: bool)
    ensures
        r == names_image_type(ext@, atlas_image),
{
    let (lo, up) = match atlas_image {
        AtlasImage::Png => ("png", "PNG"),
        AtlasImage::Tga => ("tga", "TGA"),
        AtlasImage::Tiff => ("tiff", "TIFF"),
        AtlasImage::Webp => ("webp", "WEBP"),
    };
    proof {
        reveal_strlit("png");
        reveal_strlit("PNG");
        reveal_strlit("tga");
        reveal_strlit("TGA");
        reveal_strlit("tiff");
        reveal_strlit("TIFF");
        reveal_strlit("webp");
        reveal_strlit("WEBP");
    }
    assert(lo@ == atlas_image_extension(atlas_image));
    assert(up@ == atlas_image_extension_upper(atlas_image));
    let n = ext.unicode_len();
    if n != lo.unicode_len() {
        return false;
    }
    let mut i: usize = 0;
    while i < n
        invariant
            n == ext@.len(),
            n == lo@.len(),
            n == up@.len(),
            lo@ == atlas_image_extension(atlas_image),
            up@ == atlas_image_extension_upper(atlas_image),
            i <= n,
            forall|j: int| 0 <= j < i ==> #[trigger] ext@[j] == lo@[j] || ext@[j] == up@[j],
        decreases n - i,
    {
        let c = ext.get_char(i);
        if c != lo.get_char(i) && c != up.get_char(i) {
            proof {
                let k = i as int;
                assert(!(ext@[k] == lo@[k] || ext@[k] == up@[k]));
            }
            return false;
        }
        i = i + 1;
    }
    true
}

/// Get the atlas image extension for given `atlas_image`.
pub fn get_atlas_image_extension(atlas_image: AtlasImage) -> (ext: String)
    ensures
        ext@ == atlas_image_extension(atlas_image),
{
    match atlas_image {
        AtlasImage::Png => String::from_str("png"),
        AtlasImage::Tga => String::from_str("tga"),
        AtlasImage::Tiff => String::from_str("tiff"),
        AtlasImage::Webp => String::from_str("webp"),
    }
}

/// The different load filter types: which image files are read.
#[derive(Debug, Copy, Clone, PartialEq, Eq, Structural)]
pub enum LoadFilter {
    /// load filter type: BMP
    Bmp,
    /// load filter type: HDR
    Hdr,
    /// load filter type: JPG
    Jpg,
    /// load filter type: PNG
    Png,
    /// load filter type: TGA
    Tga,
    /// load filter type: TIFF
    Tiff,
    /// load filter type: Webp
    Webp,
}

/// The file extension that a load filter lets through.
pub open spec fn load_filter_extension(load_filter: LoadFilter) -> Seq<char> {
    match load_filter {
        LoadFilter::Bmp => "bmp"@,
        LoadFilter::Hdr => "hdr"@,
        LoadFilter::Jpg => "jpg"@,
        LoadFilter::Png => "png"@,
        LoadFilter::Tga => "tga"@,
        LoadFilter::Tiff => "tiff"@,
        LoadFilter::Webp => "webp"@,
    }
}

/// Get the load filter extension for given `load_filter`.
pub fn get_load_filter_extension(load_filter: LoadFilter) -> (ext: String)
    ensures
        ext@ == load_filter_extension(load_filter),
{
    match load_filter {
        LoadFilter::Bmp => String::from_str("bmp"),
        LoadFilter::Hdr => String::from_str("hdr"),
        LoadFilter::Jpg => String::from_str("jpg"),
        LoadFilter::Png => String::from_str("png"),
        LoadFilter::Tga => String::from_str("tga"),
        LoadFilter::Tiff => String::from_str("tiff"),
        LoadFilter::Webp => String::from_str("webp"),
    }
}

/// The different atlas descriptor types.
#[derive(Debug, Copy, Clone, PartialEq, Eq, Structural)]
pub enum AtlasDescriptor {
    /// atlas descriptor type: JSON
    Json,
    /// atlas descriptor type: Txt
    Txt,
    /// atlas descriptor type: Txt (with description header)
    TxtDesc,
}

/// The different atlas output sizes (square, power of two).
#[derive(Debug, Copy, Clone, PartialEq, Eq, Structural)]
pub enum AtlasSize {
    /// power-of-two 64x64 size
    Pot64,
    /// power-of-two 128x128 size
    Pot128,
    /// power-of-two 256x256 size
    Pot256,
    /// power-of-two 512x512 size
    Pot512,
    /// power-of-two 1024x1024 size
    Pot1024,
    /// power-of-two 2048x2048 size
    Pot2048,
    /// power-of-two 4096x4096 size
    Pot4096,
    /// power-of-two 8192x8192 size
    Pot8192,
}

/// The side length of an atlas size, in pixels.
pub open spec fn atlas_side(size: AtlasSize) -> u32 {
    match size {
        AtlasSize::Pot64 => 64,
        AtlasSize::Pot128 => 128,
        AtlasSize::Pot256 => 256,
        AtlasSize::Pot512 => 512,
        AtlasSize::Pot1024 => 1024,
        AtlasSize::Pot2048 => 2048,
        AtlasSize::Pot4096 => 4096,
        AtlasSize::Pot8192 => 8192,
    }
}

impl AtlasSize {
    /// The side length of this atlas size, in pixels.
    pub fn side(self) -> (s: u32)
        ensures
            s == atlas_side(self),
    {
        match self {
            AtlasSize::Pot64 => 64,
            AtlasSize::Pot128 => 128,
            AtlasSize::Pot256 => 256,
            AtlasSize::Pot512 => 512,
            AtlasSize::Pot1024 => 1024,
            AtlasSize::Pot2048 => 2048,
            AtlasSize::Pot4096 => 4096,
            AtlasSize::Pot8192 => 8192,
        }
    }
}

/// The heuristic rule to use when deciding where to place a new rectangle.
#[derive(Debug, Copy, Clone, PartialEq, Eq, Structural)]
pub enum RectHeuristic {
    /// Choose to pack `R` into such `Fi` that `min(wf - w, hf - h)` is the smallest. In other words, we
    /// minimize the length of the shorter leftover side.
    ShortSideFit,
    /// Pack `R` into an `Fi` such that `max(wf - w, hf - h)` is the smallest. That is, we minimize
    /// the length of the longer leftover side.
    LongSideFit,
    /// Pick the `Fi` that is smallest in area to place the next rectangle `R` into. If there is a
    /// tie, we use the `ShortSideFit` rule to break it.
    AreaFit,
    /// Orient and place each rectangle to the position where the y-coordinate of the top side of the
    /// rectangle is the smallest and if there are several such valid positions, pick the one that has
    /// the smallest x-coordinate value.
    BottomLeft,
    /// Place `R` into a position where the length of the perimeter of `R` that is touched by the bin
    /// edge or by a previously packed rectangle is maximized.
    ContactPoint,
}

/// Two load filters with the same extension are the same filter.
pub proof fn lemma_load_filter_extension_injective(a: LoadFilter, b: LoadFilter)
    ensures
        load_filter_extension(a) == load_filter_extension(b) ==> a == b,
{
    reveal_strlit("bmp");
    reveal_strlit("hdr");
    reveal_strlit("jpg");
    reveal_strlit("png");
    reveal_strlit("tga");
    reveal_strlit("tiff");
    reveal_strlit("webp");
    if load_filter_extension(a) == load_filter_extension(b) {
        let e = load_filter_extension(a);
        assert(e[0] == load_filter_extension(b)[0]);
        assert(e.len() == load_filter_extension(b).len());
    }
}

/// All load filters, one of each image type that can be read.
pub open spec fn all_load_filters() -> Seq<LoadFilter> {
    seq![
        LoadFilter::Bmp,
        LoadFilter::Hdr,
        LoadFilter::Jpg,
        LoadFilter::Png,
        LoadFilter::Tga,
        LoadFilter::Tiff,
        LoadFilter::Webp,
    ]
}

/// The extensions of the image files that are read: those of the given
/// filters, or, with no filters given, those of every readable image type.
pub open spec fn load_extension_set(filters: Option<Seq<LoadFilter>>) -> Set<Seq<char>> {
    let fs = match filters {
        Some(fs) => fs,
        None => all_load_filters(),
    };
    Set::new(|e: Seq<char>| has_extension_of(fs, e))
}

/// Some filter of `fs` has the extension `e`.
pub open spec fn has_extension_of(fs: Seq<LoadFilter>, e: Seq<char>) -> bool {
    exists|i: int| 0 <= i < fs.len() && e == load_filter_extension(#[trigger] fs[i])
}

/// The text `e` is one of the texts of `v`.
pub open spec fn lists_text(v: Seq<String>, e: Seq<char>) -> bool {
    exists|k: int| 0 <= k < v.len() && #[trigger] v[k]@ == e
}

/// The texts of `v` hold no text twice.
pub open spec fn all_distinct(v: Seq<String>) -> bool {
    forall|i: int, j: int| 0 <= i < j < v.len() ==> (#[trigger] v[i])@ != (#[trigger] v[j])@
}

/// Each of `seen` is one of the first `i` filters of `fs`.
#[verifier::opaque]
spec fn all_from(seen: Seq<LoadFilter>, fs: Seq<LoadFilter>, i: int) -> bool {
    forall|k: int|
        #![trigger seen[k]]
        0 <= k < seen.len() ==> exists|j: int| 0 <= j < i && #[trigger] fs[j] == seen[k]
}

/// Each of the first `i` filters of `fs` is one of `seen`.
#[verifier::opaque]
spec fn all_seen(seen: Seq<LoadFilter>, fs: Seq<LoadFilter>, i: int) -> bool {
    forall|j: int| 0 <= j < i ==> exists|k: int| 0 <= k < seen.len() && seen[k] == #[trigger] fs[j]
}

/// Taking in filter `i` of `fs` (added to `seen` unless already there)
/// keeps `seen` exactly the filters among the first ones.
proof fn lemma_seen_step(
    old_seen: Seq<LoadFilter>,
    seen: Seq<LoadFilter>,
    fs: Seq<LoadFilter>,
    i: int,
    f: LoadFilter,
    found: bool,
)
    requires
        0 <= i < fs.len(),
        f == fs[i],
        all_from(old_seen, fs, i),
        all_seen(old_seen, fs, i),
        found <==> exists|m: int| 0 <= m < old_seen.len() && #[trigger] old_seen[m] == f,
        seen == (if found {
            old_seen
        } else {
            old_seen.push(f)
        }),
    ensures
        all_from(seen, fs, i + 1),
        all_seen(seen, fs, i + 1),
{
    assert(all_from(seen, fs, i + 1)) by {
        reveal(all_from);
        assert forall|k2: int| #![trigger seen[k2]] 0 <= k2 < seen.len() implies exists|j: int|
            0 <= j < i + 1 && #[trigger] fs[j] == seen[k2] by {
            if k2 < old_seen.len() {
                assert(seen[k2] == old_seen[k2]);
                let j = choose|j: int| 0 <= j < i && #[trigger] fs[j] == old_seen[k2];
                assert(fs[j] == seen[k2]);
            } else {
                assert(fs[i] == seen[k2]);
            }
        }
    }
    assert(all_seen(seen, fs, i + 1)) by {
        reveal(all_seen);
        assert forall|j: int| 0 <= j < i + 1 implies exists|k2: int| 0 <= k2 < seen.len()
            && seen[k2] == #[trigger] fs[j] by {
            if j < i {
                let k2 = choose|k2: int| 0 <= k2 < old_seen.len() && old_seen[k2] == #[trigger] fs[j];
                assert(seen[k2] == old_seen[k2]);
            } else if found {
                let m = choose|m: int| 0 <= m < old_seen.len() && #[trigger] old_seen[m] == f;
                assert(seen[m] == fs[j]);
            } else {
                assert(seen[seen.len() - 1] == fs[j]);
            }
        }
    }
}

/// The extension of each filter in `fs`, each once, in the order the
/// filters first come.
fn distinct_extensions(fs: &Vec<LoadFilter>) -> (r: Vec<String>)
    ensures
        all_distinct(r@),
        forall|e: Seq<char>| #[trigger] lists_text(r@, e) <==> has_extension_of(fs@, e),
{
    let mut seen: Vec<LoadFilter> = Vec::new();
    let mut r: Vec<String> = Vec::new();
    let mut i: usize = 0;
    proof {
        reveal(all_from);
        reveal(all_seen);
    }
    while i < fs.len()
        invariant
            i <= fs@.len(),
            r@.len() == seen@.len(),
            forall|k: int| 0 <= k < r@.len() ==> #[trigger] r@[k]@ == load_filter_extension(seen@[k]),
            forall|k: int, l: int| 0 <= k < l < seen@.len() ==> #[trigger] seen@[k] != #[trigger] seen@[l],
            all_from(seen@, fs@, i as int),
            all_seen(seen@, fs@, i as int),
        decreases fs@.len() - i,
    {
        let f = fs[i];
        let mut found = false;
        let mut k: usize = 0;
        while k < seen.len()
            invariant
                k <= seen@.len(),
                found <==> exists|m: int| 0 <= m < k && #[trigger] seen@[m] == f,
            decreases seen@.len() - k,
        {
            if seen[k] == f {
                found = true;
            }
            k = k + 1;
        }
        let ghost old_seen = seen@;
        proof {
            assert(k == old_seen.len());
        }
        if !found {
            seen.push(f);
            r.push(get_load_filter_extension(f));
            proof {
                assert(r@[r@.len() - 1]@ == load_filter_extension(seen@[seen@.len() - 1]));
                assert forall|a: int, b: int| 0 <= a < b < seen@.len() implies #[trigger] seen@[a]
                    != #[trigger] seen@[b] by {
                    if b == seen@.len() - 1 {
                        assert(old_seen[a] == seen@[a]);
                        if seen@[a] == f {
                            assert(exists|m: int| 0 <= m < k && #[trigger] old_seen[m] == f);
                        }
                    } else {
                        assert(old_seen[a] == seen@[a]);
                        assert(old_seen[b] == seen@[b]);
                    }
                }
            }
        }
        proof {
            lemma_seen_step(old_seen, seen@, fs@, i as int, f, found);
        }
        i = i + 1;
    }
    proof {
        assert forall|a: int, b: int| 0 <= a < b < r@.len() implies (#[trigger] r@[a])@ != (#[trigger] r@[b])@ by {
            lemma_load_filter_extension_injective(seen@[a], seen@[b]);
            assert(r@[a]@ == load_filter_extension(seen@[a]));
            assert(r@[b]@ == load_filter_extension(seen@[b]));
        }
        assert forall|e: Seq<char>| #[trigger] lists_text(r@, e) <==> has_extension_of(fs@, e) by {
            if exists|k: int| 0 <= k < r@.len() && #[trigger] r@[k]@ == e {
                let k = choose|k: int| 0 <= k < r@.len() && #[trigger] r@[k]@ == e;
                assert(r@[k]@ == load_filter_extension(seen@[k]));
                reveal(all_from);
                let j = choose|j: int| 0 <= j < i && #[trigger] fs@[j] == seen@[k];
                assert(e == load_filter_extension(fs@[j]));
            }
            if exists|i2: int| 0 <= i2 < fs@.len() && e == load_filter_extension(#[trigger] fs@[i2]) {
                let i2 = choose|i2: int| 0 <= i2 < fs@.len() && e == load_filter_extension(#[trigger] fs@[i2]);
                reveal(all_seen);
                let k = choose|k: int| 0 <= k < seen@.len() && seen@[k] == #[trigger] fs@[i2];
                assert(r@[k]@ == load_filter_extension(seen@[k]));
            }
        }
    }
    r
}

/// The extensions of the image files that are read, each once: those of
/// `filters`, or, when no filters are given, those of every readable image
/// type.
pub fn load_extensions(filters: &Option<Vec<LoadFilter>>) -> (r: Vec<String>)
    ensures
        all_distinct(r@),
        forall|e: Seq<char>|
            #[trigger] lists_text(r@, e) <==> load_extension_set(
                match filters {
                    Some(fs) => Some(fs@),
                    None => None,
                },
            ).contains(e),
{
    match filters {
        Some(fs) => distinct_extensions(fs),
        None => {
            let all = vec![
                LoadFilter::Bmp,
                LoadFilter::Hdr,
                LoadFilter::Jpg,
                LoadFilter::Png,
                LoadFilter::Tga,
                LoadFilter::Tiff,
                LoadFilter::Webp,
            ];
            assert(all@ =~= all_load_filters());
            distinct_extensions(&all)
        },
    }
}

/// Whether `ext` is one of the extensions `exts`.
pub fn is_listed_extension(ext: &str, exts: &Vec<String>) -> (r: bool)
    ensures
        r == lists_text(exts@, ext@),
{
    let e = String::from_str(ext);
    let mut k: usize = 0;
    while k < exts.len()
        invariant
            k <= exts@.len(),
            e@ == ext@,
            forall|m: int| 0 <= m < k ==> #[trigger] exts@[m]@ != ext@,
        decreases exts@.len() - k,
    {
        if exts[k] == e {
            assert(exts@[k as int]@ == ext@);
            return true;
        }
        k = k + 1;
    }
    false
}

} // verus!
