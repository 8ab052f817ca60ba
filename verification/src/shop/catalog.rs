//! The files built into the program, and the templates, masks and anchors
//! loaded from them.

use super::assets::{
    automask_image, automask_stages, decode_gray, erode_mask, autocrop_to_mask, is_autocrop_of,
    is_erosion_of, luma8_decoding, rgba8_decoding, AssetError, ItemPriceTable,
};
use super::types::{popularity_key, Popularity};
use crate::matchers::image::LumaImage;
use crate::text::{ends_with, file_stem, last_component, replace_all, starts_with};
use vstd::prelude::*;

verus! {

/// The files built into the program: each path with its bytes.
pub struct Asset {
    pub files: Vec<(String, Vec<u8>)>,
}

/// Position of the first file stored under `path`.
pub open spec fn file_index(files: Seq<(String, Vec<u8>)>, path: Seq<char>) -> Option<int> {
    if exists|i: int| 0 <= i < files.len() && #[trigger] files[i].0@ == path {
        Some(
            choose|i: int|
                0 <= i < files.len() && #[trigger] files[i].0@ == path && forall|j: int|
                    0 <= j < i ==> #[trigger] files[j].0@ != path,
        )
    } else {
        None
    }
}

proof fn lemma_file_index_first(files: Seq<(String, Vec<u8>)>, path: Seq<char>, i: int)
    requires
        0 <= i < files.len(),
        files[i].0@ == path,
        forall|j: int| 0 <= j < i ==> #[trigger] files[j].0@ != path,
    ensures
        file_index(files, path) == Some(i),
{
    assert(files[i].0@ == path && forall|j: int| 0 <= j < i ==> #[trigger] files[j].0@ != path);
    let c = choose|c: int|
        0 <= c < files.len() && #[trigger] files[c].0@ == path && forall|j: int|
            0 <= j < c ==> #[trigger] files[j].0@ != path;
    if c < i {
        assert(files[c].0@ != path);
    } else if c > i {
        assert(files[i].0@ != path);
    }
}

/// The bytes of the file stored under `path`.
pub open spec fn file_bytes(a: Asset, path: Seq<char>) -> Option<Seq<u8>> {
    match file_index(a.files@, path) {
        Some(i) => Some(a.files@[i].1@),
        None => None,
    }
}

impl Asset {
    /// The paths of the files, in order.
    pub open spec fn paths(&self) -> Seq<Seq<char>> {
        self.files@.map_values(|f: (String, Vec<u8>)| f.0@)
    }

    /// The bytes of the file stored under `path`.
    pub fn get(&self, path: &str) -> (r: Option<&Vec<u8>>)
        ensures
            r is Some <==> file_bytes(*self, path@) is Some,
            r matches Some(b) ==> b@ == file_bytes(*self, path@)->0,
    {
        let n = self.files.len();
        let mut i: usize = 0;
        while i < n
            invariant
                n == self.files@.len(),
                i <= n,
                forall|j: int| 0 <= j < i ==> #[trigger] self.files@[j].0@ != path@,
            decreases n - i,
        {
            if crate::text::str_eq(self.files[i].0.as_str(), path) {
                proof {
                    lemma_file_index_first(self.files@, path@, i as int);
                }
                return Some(&self.files[i].1);
            }
            i += 1;
        }
        None
    }

    /// The paths of the files, in order.
    pub fn iter(&self) -> (r: Vec<String>)
        ensures
            r@.map_values(|s: String| s@) == self.paths(),
    {
        let n = self.files.len();
        let mut r: Vec<String> = Vec::new();
        let mut i: usize = 0;
        while i < n
            invariant
                n == self.files@.len(),
                i <= n,
                r@.map_values(|s: String| s@) == self.paths().take(i as int),
            decreases n - i,
        {
            let ghost prev = r@;
            let c = self.files[i].0.clone();
            r.push(c);
            proof {
                assert(c@ == self.files@[i as int].0@);
                assert(r@ == prev.push(c));
                assert(r@.map_values(|s: String| s@) =~= prev.map_values(|s: String| s@).push(c@));
                assert(self.paths().take(i + 1) =~= self.paths().take(i as int).push(c@));
            }
            i += 1;
        }
        proof {
            assert(self.paths().take(n as int) =~= self.paths());
        }
        r
    }
}

/// The paths that begin with `prefix` and end with `suffix`, in order.
pub open spec fn paths_with(ps: Seq<Seq<char>>, prefix: Seq<char>, suffix: Seq<char>) -> Seq<Seq<char>>
    decreases ps.len(),
{
    if ps.len() == 0 {
        Seq::empty()
    } else {
        let rest = paths_with(ps.drop_last(), prefix, suffix);
        if starts_with(ps.last(), prefix) && ends_with(ps.last(), suffix) {
            rest.push(ps.last())
        } else {
            rest
        }
    }
}

/// The paths of the embedded files that begin with `prefix` and end with
/// `suffix`, in order.
fn select_paths(assets: &Asset, prefix: &str, suffix: &str) -> (r: Vec<String>)
    ensures
        r@.map_values(|s: String| s@) == paths_with(assets.paths(), prefix@, suffix@),
{
    let n = assets.files.len();
    let mut r: Vec<String> = Vec::new();
    let mut i: usize = 0;
    while i < n
        invariant
            n == assets.files@.len(),
            i <= n,
            r@.map_values(|s: String| s@) == paths_with(assets.paths().take(i as int), prefix@, suffix@),
        decreases n - i,
    {
        let p = &assets.files[i].0;
        proof {
            assert(assets.paths().take(i + 1).drop_last() =~= assets.paths().take(i as int));
            assert(assets.paths().take(i + 1).last() == p@);
        }
        if crate::text::has_prefix(p.as_str(), prefix) && crate::text::has_suffix(p.as_str(), suffix) {
            r.push(p.clone());
            proof {
                assert(r@.map_values(|s: String| s@) =~= paths_with(assets.paths().take(i as int), prefix@, suffix@).push(p@));
            }
        }
        i += 1;
    }
    proof {
        assert(assets.paths().take(n as int) =~= assets.paths());
    }
    r
}

/// The mask files under `prefix`: the paths that begin with it and end
/// with `_mask.png`, in order.
pub fn collect_mask_paths(assets: &Asset, prefix: &str) -> (r: Vec<String>)
    ensures
        r@.map_values(|s: String| s@) == paths_with(assets.paths(), prefix@, "_mask.png"@),
{
    select_paths(assets, prefix, "_mask.png")
}

/// The price files: under `items/`, ending with `prices.json`, in order.
pub fn price_file_paths(assets: &Asset) -> (r: Vec<String>)
    ensures
        r@.map_values(|s: String| s@) == paths_with(assets.paths(), "items/"@, "prices.json"@),
{
    select_paths(assets, "items/", "prices.json")
}

/// The name of a template from its mask's path: the file name without
/// `_mask.png`, when it ends so.
pub open spec fn mask_stem(path: Seq<char>) -> Option<Seq<char>> {
    let f = last_component(path);
    if ends_with(f, "_mask.png"@) {
        Some(f.take(f.len() - "_mask.png"@.len()))
    } else {
        None
    }
}

/// The template's name from its mask's path.
pub fn stem_without_mask(path: &str) -> (r: Result<String, AssetError>)
    ensures
        r is Ok <==> mask_stem(path@) is Some,
        r matches Ok(s) ==> s@ == mask_stem(path@)->0,
        r matches Err(e) ==> e matches AssetError::MaskPath(p) && p@ == path@,
{
    let f = crate::text::path_file_name(path);
    let fs = crate::text::string_of(&f);
    if crate::text::has_suffix(fs.as_str(), "_mask.png") {
        proof {
            reveal_strlit("_mask.png");
        }
        let stem = crate::text::head_of(&f, f.len() - 9);
        Ok(crate::text::string_of(&stem))
    } else {
        Err(AssetError::MaskPath(String::from_str(path)))
    }
}

/// The template image that goes with a mask: `_mask.png` replaced by `.png`.
pub open spec fn template_path(mask_path: Seq<char>) -> Seq<char> {
    replace_all(mask_path, "_mask.png"@, ".png"@)
}

/// What went wrong with a file, and its path.
#[derive(Debug, Clone, Copy, PartialEq, Eq, Structural)]
pub enum FailureKind {
    NotFound,
    Decode,
    MaskPath,
    Popularity,
}

/// `e` reports failure `f`.
pub open spec fn reports(e: AssetError, f: (FailureKind, Seq<char>)) -> bool {
    match e {
        AssetError::NotFound(p) => f.0 == FailureKind::NotFound && p@ == f.1,
        AssetError::Decode { path, message } => f.0 == FailureKind::Decode && path@ == f.1,
        AssetError::MaskPath(p) => f.0 == FailureKind::MaskPath && p@ == f.1,
        AssetError::Popularity(p) => f.0 == FailureKind::Popularity && p@ == f.1,
    }
}

/// The gray decoding of the file at `path`.
pub open spec fn gray_of(a: Asset, path: Seq<char>) -> Option<(u32, u32, Seq<u8>)> {
    match file_bytes(a, path) {
        Some(b) => luma8_decoding(b),
        None => None,
    }
}

/// Why the file at `path` gives no gray image: it is missing or does not
/// decode.
pub open spec fn gray_failure(a: Asset, path: Seq<char>) -> Option<(FailureKind, Seq<char>)> {
    match file_bytes(a, path) {
        None => Some((FailureKind::NotFound, path)),
        Some(b) => if luma8_decoding(b) is Some { None } else { Some((FailureKind::Decode, path)) },
    }
}

/// `img` is the decoded image `d`.
pub open spec fn is_image(img: LumaImage, d: (u32, u32, Seq<u8>)) -> bool {
    img.wf() && img.width == d.0 && img.height == d.1 && img.data@ == d.2
}

/// Loads an embedded image as 8-bit gray.
pub fn load_gray(assets: &Asset, relative_path: &str) -> (r: Result<LumaImage, AssetError>)
    ensures
        r is Ok <==> gray_failure(*assets, relative_path@) is None,
        r matches Ok(img) ==> is_image(img, gray_of(*assets, relative_path@)->0) && img.width * img.height
            <= 0x2000_0000,
        r matches Err(e) ==> reports(e, gray_failure(*assets, relative_path@)->0),
{
    let bytes = match assets.get(relative_path) {
        Some(b) => b,
        None => return Err(AssetError::NotFound(String::from_str(relative_path))),
    };
    match decode_gray(bytes.as_slice()) {
        Ok(img) => Ok(img),
        Err(message) => Err(AssetError::Decode { path: String::from_str(relative_path), message }),
    }
}

/// Why the file at `path` gives no color image.
pub open spec fn rgba_failure(a: Asset, path: Seq<char>) -> Option<(FailureKind, Seq<char>)> {
    match file_bytes(a, path) {
        None => Some((FailureKind::NotFound, path)),
        Some(b) => if rgba8_decoding(b) is Some { None } else { Some((FailureKind::Decode, path)) },
    }
}

/// Loads an embedded image and derives a template and its mask from it,
/// as `automask_image` does.
pub fn load_image_and_automask(assets: &Asset, relative_path: &str) -> (r: Result<(LumaImage, LumaImage), AssetError>)
    ensures
        r is Ok <==> rgba_failure(*assets, relative_path@) is None,
        r is Ok ==> exists|gray: LumaImage, raw: LumaImage, eroded: LumaImage|
            #[trigger] automask_stages(
                rgba8_decoding(file_bytes(*assets, relative_path@)->0)->0,
                gray,
                raw,
                eroded,
                r->Ok_0,
            ),
        r matches Err(e) ==> reports(e, rgba_failure(*assets, relative_path@)->0),
{
    let bytes = match assets.get(relative_path) {
        Some(b) => b,
        None => return Err(AssetError::NotFound(String::from_str(relative_path))),
    };
    match automask_image(bytes.as_slice()) {
        Ok(pair) => {
            let res: Result<(LumaImage, LumaImage), AssetError> = Ok(pair);
            proof {
                let (g, raw, e) = choose|g: LumaImage, raw: LumaImage, e: LumaImage|
                    #[trigger] automask_stages(rgba8_decoding(bytes@)->0, g, raw, e, pair);
                assert(automask_stages(rgba8_decoding(file_bytes(*assets, relative_path@)->0)->0, g, raw, e, res->Ok_0));
            }
            res
        },
        Err(message) => Err(AssetError::Decode { path: String::from_str(relative_path), message }),
    }
}

/// The gray images that locate the shop and its slots on screen.
pub struct AnchorSet {
    pub item_grid: LumaImage,
    pub item_grid_mask: LumaImage,
    pub top_right: LumaImage,
    pub top_right_mask: LumaImage,
    pub bottom_left: LumaImage,
    pub bottom_left_mask: LumaImage,
}

/// Where the anchors are stored, in the order they are loaded.
pub open spec fn anchor_paths() -> Seq<Seq<char>> {
    seq![
        "anchors/item_grid/item_grid.png"@,
        "anchors/item_grid/item_grid_mask.png"@,
        "anchors/shop/top_right_corner.png"@,
        "anchors/shop/top_right_corner_mask.png"@,
        "anchors/shop/bottom_left_corner.png"@,
        "anchors/shop/bottom_left_corner_mask.png"@,
    ]
}

/// The first of `paths` from `i` on that gives no gray image.
pub open spec fn first_gray_failure(a: Asset, paths: Seq<Seq<char>>, i: int) -> Option<(FailureKind, Seq<char>)>
    decreases paths.len() - i,
{
    if i < 0 || i >= paths.len() {
        None
    } else if gray_failure(a, paths[i]) is Some {
        gray_failure(a, paths[i])
    } else {
        first_gray_failure(a, paths, i + 1)
    }
}

/// The anchors are the images stored at their paths.
pub open spec fn anchors_loaded(a: Asset, s: AnchorSet) -> bool {
    let p = anchor_paths();
    &&& is_image(s.item_grid, gray_of(a, p[0])->0)
    &&& is_image(s.item_grid_mask, gray_of(a, p[1])->0)
    &&& is_image(s.top_right, gray_of(a, p[2])->0)
    &&& is_image(s.top_right_mask, gray_of(a, p[3])->0)
    &&& is_image(s.bottom_left, gray_of(a, p[4])->0)
    &&& is_image(s.bottom_left_mask, gray_of(a, p[5])->0)
}

/// Loads the anchor images; fails on the first one missing or not decoding.
#[verifier::rlimit(60)]
pub fn load_anchors(assets: &Asset) -> (r: Result<AnchorSet, AssetError>)
    ensures
        r is Ok <==> first_gray_failure(*assets, anchor_paths(), 0) is None,
        r matches Ok(s) ==> anchors_loaded(*assets, s),
        r matches Err(e) ==> reports(e, first_gray_failure(*assets, anchor_paths(), 0)->0),
{
    let ghost a = *assets;
    let ghost p = anchor_paths();
    let item_grid = match load_gray(assets, "anchors/item_grid/item_grid.png") {
        Ok(img) => img,
        Err(e) => return Err(e),
    };
    proof {
        assert(first_gray_failure(a, p, 0) == first_gray_failure(a, p, 1));
    }
    let item_grid_mask = match load_gray(assets, "anchors/item_grid/item_grid_mask.png") {
        Ok(img) => img,
        Err(e) => return Err(e),
    };
    proof {
        assert(first_gray_failure(a, p, 1) == first_gray_failure(a, p, 2));
    }
    let top_right = match load_gray(assets, "anchors/shop/top_right_corner.png") {
        Ok(img) => img,
        Err(e) => return Err(e),
    };
    proof {
        assert(first_gray_failure(a, p, 2) == first_gray_failure(a, p, 3));
    }
    let top_right_mask = match load_gray(assets, "anchors/shop/top_right_corner_mask.png") {
        Ok(img) => img,
        Err(e) => return Err(e),
    };
    proof {
        assert(first_gray_failure(a, p, 3) == first_gray_failure(a, p, 4));
    }
    let bottom_left = match load_gray(assets, "anchors/shop/bottom_left_corner.png") {
        Ok(img) => img,
        Err(e) => return Err(e),
    };
    proof {
        assert(first_gray_failure(a, p, 4) == first_gray_failure(a, p, 5));
    }
    let bottom_left_mask = match load_gray(assets, "anchors/shop/bottom_left_corner_mask.png") {
        Ok(img) => img,
        Err(e) => return Err(e),
    };
    proof {
        assert(first_gray_failure(a, p, 5) == first_gray_failure(a, p, 6));
        assert(first_gray_failure(a, p, 6) is None);
    }
    Ok(AnchorSet { item_grid, item_grid_mask, top_right, top_right_mask, bottom_left, bottom_left_mask })
}


/// Why the template of the mask at `m` cannot be loaded: the path does not
/// name a mask, or the template image or the mask is missing or does not
/// decode, checked in that order.
pub open spec fn mask_failure(a: Asset, m: Seq<char>) -> Option<(FailureKind, Seq<char>)> {
    if mask_stem(m) is None {
        Some((FailureKind::MaskPath, m))
    } else if gray_failure(a, template_path(m)) is Some {
        gray_failure(a, template_path(m))
    } else {
        gray_failure(a, m)
    }
}

/// The first of the masks `ms` from `i` on whose template cannot be loaded.
pub open spec fn first_mask_failure(a: Asset, ms: Seq<Seq<char>>, i: int) -> Option<(FailureKind, Seq<char>)>
    decreases ms.len() - i,
{
    if i < 0 || i >= ms.len() {
        None
    } else if mask_failure(a, ms[i]) is Some {
        mask_failure(a, ms[i])
    } else {
        first_mask_failure(a, ms, i + 1)
    }
}

/// A gray template of an item with the mask of the pixels that count.
pub struct ItemTemplate {
    pub name: String,
    pub template: LumaImage,
    pub mask: LumaImage,
}

/// The masks of the item templates.
pub open spec fn item_masks(a: Asset) -> Seq<Seq<char>> {
    paths_with(a.paths(), "items/"@, "_mask.png"@)
}

/// The stages of loading a template from its mask at `m`: the template
/// image and the mask as stored, the mask eroded by 2, both cropped to it.
pub open spec fn masked_stages(
    a: Asset,
    m: Seq<char>,
    gray: LumaImage,
    mask: LumaImage,
    eroded: LumaImage,
    t: ItemTemplate,
) -> bool {
    &&& is_image(gray, gray_of(a, template_path(m))->0)
    &&& is_image(mask, gray_of(a, m)->0)
    &&& is_erosion_of(eroded, mask, 2)
    &&& is_autocrop_of((t.template, t.mask), gray, eroded)
}

/// `t` is the template loaded from its mask at `m`.
pub open spec fn masked_template(a: Asset, m: Seq<char>, t: ItemTemplate) -> bool {
    &&& t.name@ == mask_stem(m)->0
    &&& exists|g: LumaImage, mk: LumaImage, e: LumaImage| #[trigger] masked_stages(a, m, g, mk, e, t)
}

/// An item image that is neither a mask nor a price file.
pub open spec fn plain_item_image(p: Seq<char>) -> bool {
    starts_with(p, "items/"@) && !ends_with(p, "_mask.png"@) && !ends_with(p, ".json"@)
}

/// The name of a template found without a mask: its file name without
/// extension.
pub open spec fn image_stem(p: Seq<char>) -> Seq<char> {
    file_stem(last_component(p))
}

/// `t` is the template derived from the image at `p` with its own mask.
pub open spec fn auto_template(a: Asset, p: Seq<char>, t: ItemTemplate) -> bool {
    &&& t.name@ == image_stem(p)
    &&& exists|g: LumaImage, raw: LumaImage, e: LumaImage|
        #[trigger] automask_stages(rgba8_decoding(file_bytes(a, p)->0)->0, g, raw, e, (t.template, t.mask))
}

/// The names known after looking at the first `n` of `ps` for images
/// without masks, starting from `names`, and the images taken: those whose
/// name is not known yet and that decode, each then known.
pub open spec fn auto_pass(a: Asset, ps: Seq<Seq<char>>, n: int, names: Seq<Seq<char>>) -> (
    Seq<Seq<char>>,
    Seq<Seq<char>>,
)
    decreases n,
{
    if n <= 0 {
        (names, Seq::empty())
    } else {
        let (known, taken) = auto_pass(a, ps, n - 1, names);
        let p = ps[n - 1];
        if plain_item_image(p) && !known.contains(image_stem(p)) && rgba_failure(a, p) is None {
            (known.push(image_stem(p)), taken.push(p))
        } else {
            (known, taken)
        }
    }
}

/// The names of the templates of masks `ms`.
pub open spec fn mask_names(ms: Seq<Seq<char>>) -> Seq<Seq<char>> {
    ms.map_values(|m: Seq<char>| mask_stem(m)->0)
}

/// The images taken without masks.
pub open spec fn auto_images(a: Asset) -> Seq<Seq<char>> {
    auto_pass(a, a.paths(), a.paths().len() as int, mask_names(item_masks(a))).1
}

/// `ts` are the item templates: one for each mask, in order, then one for
/// each item image whose name no template has yet and that decodes.
pub open spec fn item_templates_loaded(a: Asset, ts: Seq<ItemTemplate>) -> bool {
    let ms = item_masks(a);
    let taken = auto_images(a);
    let rest = ts.skip(ms.len() as int);
    &&& ts.len() == ms.len() + taken.len()
    &&& forall|i: int| 0 <= i < ms.len() ==> masked_template(a, ms[i], #[trigger] ts[i])
    &&& forall|j: int| 0 <= j < taken.len() ==> auto_template(a, taken[j], #[trigger] rest[j])
}

/// Whether `names` holds `s`.
fn contains_name(names: &Vec<Vec<char>>, s: &Vec<char>) -> (b: bool)
    ensures
        b == names@.map_values(|v: Vec<char>| v@).contains(s@),
{
    let n = names.len();
    let mut i: usize = 0;
    while i < n
        invariant
            n == names@.len(),
            i <= n,
            forall|k: int| 0 <= k < i ==> #[trigger] names@[k]@ != s@,
        decreases n - i,
    {
        if crate::text::seq_eq(&names[i], s) {
            proof {
                assert(names@.map_values(|v: Vec<char>| v@)[i as int] == s@);
            }
            return true;
        }
        i += 1;
    }
    proof {
        let vs = names@.map_values(|v: Vec<char>| v@);
        assert forall|k: int| 0 <= k < vs.len() implies #[trigger] vs[k] != s@ by {
            assert(names@[k]@ != s@);
        }
    }
    false
}

/// Loads the template of the mask at `mask_path`: the template image and
/// the mask, the mask eroded by 2 and both cropped to it.
fn load_masked(assets: &Asset, mask_path: &str) -> (r: Result<ItemTemplate, AssetError>)
    ensures
        r is Ok <==> mask_failure(*assets, mask_path@) is None,
        r matches Ok(t) ==> masked_template(*assets, mask_path@, t),
        r matches Err(e) ==> reports(e, mask_failure(*assets, mask_path@)->0),
{
    let name = match stem_without_mask(mask_path) {
        Ok(n) => n,
        Err(e) => return Err(e),
    };
    proof {
        reveal_strlit("_mask.png");
        reveal_strlit(".png");
    }
    let tmpl_path = crate::text::replace(mask_path, "_mask.png", ".png");
    let gray = match load_gray(assets, tmpl_path.as_str()) {
        Ok(g) => g,
        Err(e) => return Err(e),
    };
    let mask = match load_gray(assets, mask_path) {
        Ok(m) => m,
        Err(e) => return Err(e),
    };
    proof {
        let (w, h) = (mask.width, mask.height);
        assert(w * h == 0 || (w <= 0x7FFF_FFFF && h <= 0x7FFF_FFFF)) by (nonlinear_arith)
            requires
                w * h <= 0x2000_0000,
        ;
    }
    let eroded = erode_mask(&mask, 2);
    let ghost (g0, m0, e0) = (gray, mask, eroded);
    let (template, cropped) = autocrop_to_mask(gray, eroded);
    let t = ItemTemplate { name, template, mask: cropped };
    proof {
        assert(masked_stages(*assets, mask_path@, g0, m0, e0, t));
    }
    Ok(t)
}

/// The templates of the masks under `items/`, in order, and their names.
fn load_masked_templates(assets: &Asset) -> (r: Result<(Vec<ItemTemplate>, Vec<Vec<char>>), AssetError>)
    ensures
        r is Ok <==> first_mask_failure(*assets, item_masks(*assets), 0) is None,
        r matches Ok(p) ==> {
            let ms = item_masks(*assets);
            &&& p.0@.len() == ms.len()
            &&& forall|k: int| 0 <= k < ms.len() ==> masked_template(*assets, ms[k], #[trigger] p.0@[k])
            &&& p.1@.map_values(|v: Vec<char>| v@) == mask_names(ms)
        },
        r matches Err(e) ==> reports(e, first_mask_failure(*assets, item_masks(*assets), 0)->0),
{
    let ghost a = *assets;
    let ghost ms = item_masks(a);
    let mut templates: Vec<ItemTemplate> = Vec::new();
    let mut names: Vec<Vec<char>> = Vec::new();
    let masks = collect_mask_paths(assets, "items/");
    let nm = masks.len();
    let mut i: usize = 0;
    while i < nm
        invariant
            nm == masks@.len(),
            masks@.map_values(|s: String| s@) == ms,
            ms == item_masks(a),
            a == *assets,
            i <= nm,
            first_mask_failure(a, ms, 0) == first_mask_failure(a, ms, i as int),
            templates@.len() == i,
            forall|k: int| 0 <= k < i ==> masked_template(a, ms[k], #[trigger] templates@[k]),
            names@.map_values(|v: Vec<char>| v@) == mask_names(ms.take(i as int)),
        decreases nm - i,
    {
        let mask_path = &masks[i];
        proof {
            assert(mask_path@ == ms[i as int]);
        }
        let t = match load_masked(assets, mask_path.as_str()) {
            Ok(t) => t,
            Err(e) => return Err(e),
        };
        let name = crate::text::chars_of(t.name.as_str());
        let ghost before = templates@;
        let ghost names_before = names@;
        templates.push(t);
        names.push(name);
        proof {
            assert forall|k: int| 0 <= k < i + 1 implies masked_template(a, ms[k], #[trigger] templates@[k]) by {
                if k < i {
                    assert(templates@[k] == before[k]);
                }
            }
            assert(ms.take(i + 1) =~= ms.take(i as int).push(ms[i as int]));
            assert(names@.map_values(|v: Vec<char>| v@) =~= names_before.map_values(|v: Vec<char>| v@).push(
                mask_stem(ms[i as int])->0,
            ));
            assert(mask_names(ms.take(i + 1)) =~= mask_names(ms.take(i as int)).push(mask_stem(ms[i as int])->0));
        }
        i += 1;
    }
    proof {
        assert(ms.take(nm as int) =~= ms);
    }
    Ok((templates, names))
}

/// The template derived from the image at `path` with its own mask, if the
/// image decodes.
fn load_auto(assets: &Asset, path: &str, stem: &Vec<char>) -> (r: Option<ItemTemplate>)
    requires
        stem@ == image_stem(path@),
    ensures
        r is Some <==> rgba_failure(*assets, path@) is None,
        r matches Some(t) ==> auto_template(*assets, path@, t),
{
    match load_image_and_automask(assets, path) {
        Ok(pair) => {
            let ghost gp = pair;
            let (template, mask) = pair;
            let t = ItemTemplate { name: crate::text::string_of(stem), template, mask };
            proof {
                let (g, raw, e) = choose|g: LumaImage, raw: LumaImage, e: LumaImage|
                    #[trigger] automask_stages(rgba8_decoding(file_bytes(*assets, path@)->0)->0, g, raw, e, gp);
                assert(gp == (t.template, t.mask));
                assert(automask_stages(rgba8_decoding(file_bytes(*assets, path@)->0)->0, g, raw, e, (t.template, t.mask)));
            }
            Some(t)
        },
        Err(_) => None,
    }
}

/// Adds the templates of the item images without masks.
#[verifier::rlimit(30)]
fn add_auto_templates(assets: &Asset, templates: &mut Vec<ItemTemplate>, names: &mut Vec<Vec<char>>)
    ensures
        final(names)@.map_values(|v: Vec<char>| v@) == auto_pass(
            *assets,
            assets.paths(),
            assets.paths().len() as int,
            old(names)@.map_values(|v: Vec<char>| v@),
        ).0,
        final(templates)@.take(old(templates)@.len() as int) == old(templates)@,
        final(templates)@.len() == old(templates)@.len() + auto_pass(
            *assets,
            assets.paths(),
            assets.paths().len() as int,
            old(names)@.map_values(|v: Vec<char>| v@),
        ).1.len(),
        forall|k: int|
            0 <= k < auto_pass(
                *assets,
                assets.paths(),
                assets.paths().len() as int,
                old(names)@.map_values(|v: Vec<char>| v@),
            ).1.len() ==> auto_template(
                *assets,
                auto_pass(
                    *assets,
                    assets.paths(),
                    assets.paths().len() as int,
                    old(names)@.map_values(|v: Vec<char>| v@),
                ).1[k],
                #[trigger] final(templates)@.skip(old(templates)@.len() as int)[k],
            ),
{
    let ghost a = *assets;
    let ghost names0 = names@.map_values(|v: Vec<char>| v@);
    let ghost t0 = templates@;
    let paths = assets.iter();
    let np = paths.len();
    let ghost ps = a.paths();
    let mut j: usize = 0;
    while j < np
        invariant
            np == paths@.len(),
            paths@.map_values(|s: String| s@) == ps,
            ps == a.paths(),
            a == *assets,
            j <= np,
            names@.map_values(|v: Vec<char>| v@) == auto_pass(a, ps, j as int, names0).0,
            templates@.len() == t0.len() + auto_pass(a, ps, j as int, names0).1.len(),
            templates@.take(t0.len() as int) == t0,
            forall|k: int|
                0 <= k < auto_pass(a, ps, j as int, names0).1.len() ==> auto_template(
                    a,
                    auto_pass(a, ps, j as int, names0).1[k],
                    #[trigger] templates@.skip(t0.len() as int)[k],
                ),
        decreases np - j,
    {
        let path = &paths[j];
        proof {
            assert(path@ == ps[j as int]);
        }
        let ghost before = templates@;
        if crate::text::has_prefix(path.as_str(), "items/") && !crate::text::has_suffix(path.as_str(), "_mask.png")
            && !crate::text::has_suffix(path.as_str(), ".json") {
            let file_name = crate::text::path_file_name(path.as_str());
            let stem = crate::text::stem_of(&file_name);
            if !contains_name(names, &stem) {
                match load_auto(assets, path.as_str(), &stem) {
                    Some(t) => {
                        templates.push(t);
                        let ghost names_before = names@;
                        names.push(stem);
                        proof {
                            assert(names@.map_values(|v: Vec<char>| v@) =~= names_before.map_values(
                                |v: Vec<char>| v@,
                            ).push(image_stem(path@)));
                            let taken = auto_pass(a, ps, j + 1, names0).1;
                            assert(taken == auto_pass(a, ps, j as int, names0).1.push(path@));
                            assert(templates@.take(t0.len() as int) =~= before.take(t0.len() as int));
                            assert forall|k: int| 0 <= k < taken.len() implies auto_template(
                                a,
                                taken[k],
                                #[trigger] templates@.skip(t0.len() as int)[k],
                            ) by {
                                if k < taken.len() - 1 {
                                    assert(templates@.skip(t0.len() as int)[k] == before.skip(t0.len() as int)[k]);
                                } else {
                                    assert(templates@.skip(t0.len() as int)[k] == t);
                                }
                            }
                        }
                    },
                    None => {},
                }
            }
        }
        j += 1;
    }
}

/// Loads the item templates: first each mask under `items/` with its
/// template image, the mask eroded by 2 and both cropped to it; then every
/// other image under `items/`, not a price file, whose name no template has
/// yet, with a mask derived from the image itself. Fails on the first mask
/// that cannot be used; an image without mask that does not decode is
/// skipped.
pub fn load_item_templates(assets: &Asset) -> (r: Result<Vec<ItemTemplate>, AssetError>)
    ensures
        r is Ok <==> first_mask_failure(*assets, item_masks(*assets), 0) is None,
        r matches Ok(ts) ==> item_templates_loaded(*assets, ts@),
        r matches Err(e) ==> reports(e, first_mask_failure(*assets, item_masks(*assets), 0)->0),
{
    let (mut templates, mut names) = match load_masked_templates(assets) {
        Ok(p) => p,
        Err(e) => return Err(e),
    };
    let ghost ms = item_masks(*assets);
    let ghost first = templates@;
    add_auto_templates(assets, &mut templates, &mut names);
    proof {
        assert forall|k: int| 0 <= k < ms.len() implies masked_template(*assets, ms[k], #[trigger] templates@[k]) by {
            assert(templates@[k] == templates@.take(ms.len() as int)[k]);
        }
    }
    Ok(templates)
}


/// A gray template of a popularity indicator with its mask.
pub struct PopularityTemplate {
    pub popularity: Popularity,
    pub template: LumaImage,
    pub mask: LumaImage,
}

/// The masks of the popularity templates.
pub open spec fn popularity_masks(a: Asset) -> Seq<Seq<char>> {
    paths_with(a.paths(), "identifier/popularity/"@, "_mask.png"@)
}

/// `name` is the name of a popularity.
pub open spec fn names_popularity(name: Seq<char>) -> bool {
    exists|v: Popularity| popularity_key(v) == name
}

/// Why the popularity template of the mask at `m` cannot be loaded: the
/// path does not name a mask, the name is no popularity, or the template
/// image or the mask is missing or does not decode, checked in that order.
pub open spec fn popularity_failure(a: Asset, m: Seq<char>) -> Option<(FailureKind, Seq<char>)> {
    if mask_stem(m) is None {
        Some((FailureKind::MaskPath, m))
    } else if !names_popularity(mask_stem(m)->0) {
        Some((FailureKind::Popularity, mask_stem(m)->0))
    } else if gray_failure(a, template_path(m)) is Some {
        gray_failure(a, template_path(m))
    } else {
        gray_failure(a, m)
    }
}

/// The first of the masks `ms` from `i` on whose popularity template cannot
/// be loaded.
pub open spec fn first_popularity_failure(a: Asset, ms: Seq<Seq<char>>, i: int) -> Option<(FailureKind, Seq<char>)>
    decreases ms.len() - i,
{
    if i < 0 || i >= ms.len() {
        None
    } else if popularity_failure(a, ms[i]) is Some {
        popularity_failure(a, ms[i])
    } else {
        first_popularity_failure(a, ms, i + 1)
    }
}

/// `t` is the popularity template of the mask at `m`: its popularity is
/// the mask's name, its images the template image and the mask as stored.
pub open spec fn popularity_template(a: Asset, m: Seq<char>, t: PopularityTemplate) -> bool {
    &&& popularity_key(t.popularity) == mask_stem(m)->0
    &&& is_image(t.template, gray_of(a, template_path(m))->0)
    &&& is_image(t.mask, gray_of(a, m)->0)
}

/// `ts` are the popularity templates, one for each mask, in order.
pub open spec fn popularity_templates_loaded(a: Asset, ts: Seq<PopularityTemplate>) -> bool {
    let ms = popularity_masks(a);
    &&& ts.len() == ms.len()
    &&& forall|i: int| 0 <= i < ms.len() ==> popularity_template(a, ms[i], #[trigger] ts[i])
}

fn load_popularity(assets: &Asset, mask_path: &str) -> (r: Result<PopularityTemplate, AssetError>)
    ensures
        r is Ok <==> popularity_failure(*assets, mask_path@) is None,
        r matches Ok(t) ==> popularity_template(*assets, mask_path@, t),
        r matches Err(e) ==> reports(e, popularity_failure(*assets, mask_path@)->0),
{
    let name = match stem_without_mask(mask_path) {
        Ok(n) => n,
        Err(e) => return Err(e),
    };
    let popularity = match Popularity::from_template_name(name.as_str()) {
        Some(p) => p,
        None => return Err(AssetError::Popularity(name)),
    };
    proof {
        reveal_strlit("_mask.png");
        reveal_strlit(".png");
    }
    let tmpl_path = crate::text::replace(mask_path, "_mask.png", ".png");
    let template = match load_gray(assets, tmpl_path.as_str()) {
        Ok(g) => g,
        Err(e) => return Err(e),
    };
    let mask = match load_gray(assets, mask_path) {
        Ok(m) => m,
        Err(e) => return Err(e),
    };
    Ok(PopularityTemplate { popularity, template, mask })
}

/// Loads the popularity templates: for each mask under
/// `identifier/popularity/`, named low, normal or high, its template image
/// and the mask. Fails on the first mask that cannot be used.
pub fn load_popularity_templates(assets: &Asset) -> (r: Result<Vec<PopularityTemplate>, AssetError>)
    ensures
        r is Ok <==> first_popularity_failure(*assets, popularity_masks(*assets), 0) is None,
        r matches Ok(ts) ==> popularity_templates_loaded(*assets, ts@),
        r matches Err(e) ==> reports(e, first_popularity_failure(*assets, popularity_masks(*assets), 0)->0),
{
    let ghost a = *assets;
    let ghost ms = popularity_masks(a);
    let mut templates: Vec<PopularityTemplate> = Vec::new();
    let masks = collect_mask_paths(assets, "identifier/popularity/");
    let nm = masks.len();
    let mut i: usize = 0;
    while i < nm
        invariant
            nm == masks@.len(),
            masks@.map_values(|s: String| s@) == ms,
            ms == popularity_masks(a),
            a == *assets,
            i <= nm,
            first_popularity_failure(a, ms, 0) == first_popularity_failure(a, ms, i as int),
            templates@.len() == i,
            forall|k: int| 0 <= k < i ==> popularity_template(a, ms[k], #[trigger] templates@[k]),
        decreases nm - i,
    {
        let mask_path = &masks[i];
        proof {
            assert(mask_path@ == ms[i as int]);
        }
        let t = match load_popularity(assets, mask_path.as_str()) {
            Ok(t) => t,
            Err(e) => return Err(e),
        };
        let ghost before = templates@;
        templates.push(t);
        proof {
            assert forall|k: int| 0 <= k < i + 1 implies popularity_template(a, ms[k], #[trigger] templates@[k]) by {
                if k < i {
                    assert(templates@[k] == before[k]);
                }
            }
        }
        i += 1;
    }
    Ok(templates)
}

#[verifier::external_type_specification]
#[verifier::external_body]
pub struct ExFontArc(ab_glyph::FontArc);

/// Everything the detection needs: the font, the item and popularity
/// templates, the anchors and the price table.
pub struct ShopAssets {
    pub font: ab_glyph::FontArc,
    pub item_templates: Vec<ItemTemplate>,
    pub pop_templates: Vec<PopularityTemplate>,
    pub anchors: AnchorSet,
    pub price_table: ItemPriceTable,
}

/// Why the assets cannot be loaded: the first failing item template, else
/// popularity template, else anchor.
pub open spec fn shop_failure(a: Asset) -> Option<(FailureKind, Seq<char>)> {
    if first_mask_failure(a, item_masks(a), 0) is Some {
        first_mask_failure(a, item_masks(a), 0)
    } else if first_popularity_failure(a, popularity_masks(a), 0) is Some {
        first_popularity_failure(a, popularity_masks(a), 0)
    } else {
        first_gray_failure(a, anchor_paths(), 0)
    }
}

impl ShopAssets {
    /// Loads the templates and anchors from the embedded files; the font
    /// and the price table come with them.
    pub fn load(assets: &Asset, font: ab_glyph::FontArc, price_table: ItemPriceTable) -> (r: Result<Self, AssetError>)
        ensures
            r is Ok <==> shop_failure(*assets) is None,
            r matches Ok(s) ==> {
                &&& item_templates_loaded(*assets, s.item_templates@)
                &&& popularity_templates_loaded(*assets, s.pop_templates@)
                &&& anchors_loaded(*assets, s.anchors)
                &&& s.price_table == price_table
                &&& s.font == font
            },
            r matches Err(e) ==> reports(e, shop_failure(*assets)->0),
    {
        let item_templates = match load_item_templates(assets) {
            Ok(t) => t,
            Err(e) => return Err(e),
        };
        let pop_templates = match load_popularity_templates(assets) {
            Ok(t) => t,
            Err(e) => return Err(e),
        };
        let anchors = match load_anchors(assets) {
            Ok(a) => a,
            Err(e) => return Err(e),
        };
        Ok(ShopAssets { font, item_templates, pop_templates, anchors, price_table })
    }
}

} // verus!
