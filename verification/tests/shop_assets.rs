use moonlighter_overlay::matchers::LumaImage;
use moonlighter_overlay::shop::assets::{
    autocrop_to_mask, automask_image, decode_gray, erode_mask, normalize_name, AssetError, ItemPriceEntry,
    ItemPriceTable, PriceMap,
};
use moonlighter_overlay::shop::catalog::{
    collect_mask_paths, load_anchors, load_gray, load_image_and_automask, load_item_templates,
    load_popularity_templates, price_file_paths, stem_without_mask, Asset,
};
use moonlighter_overlay::shop::types::Popularity;

fn gray_png(w: u32, h: u32, px: Vec<u8>) -> Vec<u8> {
    let img = image::GrayImage::from_raw(w, h, px).unwrap();
    let mut out = std::io::Cursor::new(Vec::new());
    img.write_to(&mut out, image::ImageFormat::Png).unwrap();
    out.into_inner()
}

/// A 20 by 20 picture: black border 4 pixels wide, white inside.
fn framed_png() -> Vec<u8> {
    let mut img = image::RgbaImage::new(20, 20);
    for (x, y, p) in img.enumerate_pixels_mut() {
        let inside = (4..16).contains(&x) && (4..16).contains(&y);
        *p = if inside { image::Rgba([255, 255, 255, 255]) } else { image::Rgba([0, 0, 0, 255]) };
    }
    let mut out = std::io::Cursor::new(Vec::new());
    img.write_to(&mut out, image::ImageFormat::Png).unwrap();
    out.into_inner()
}

fn prices(pairs: &[(&str, u32)]) -> PriceMap {
    let mut m = PriceMap::new();
    for (k, p) in pairs {
        m.insert(k.to_string(), *p);
    }
    m
}

fn table() -> ItemPriceTable {
    ItemPriceTable {
        items: vec![
            ItemPriceEntry {
                name: "Iron Bar".to_string(),
                prices: prices(&[("low", 40), ("normal", 50), ("high", 60)]),
                ng_plus_prices: Some(prices(&[("high", 600)])),
            },
            ItemPriceEntry { name: "iron_bar".to_string(), prices: prices(&[("normal", 1)]), ng_plus_prices: None },
            ItemPriceEntry { name: "golem-core".to_string(), prices: prices(&[("normal", 9)]), ng_plus_prices: None },
        ],
    }
}

fn assets(files: Vec<(&str, Vec<u8>)>) -> Asset {
    Asset { files: files.into_iter().map(|(p, b)| (p.to_string(), b)).collect() }
}

#[test]
fn price_maps_keep_one_price_per_key() {
    let mut m = PriceMap::new();
    assert_eq!(m.get("low"), None);
    m.insert("low".to_string(), 3);
    m.insert("high".to_string(), 9);
    m.insert("low".to_string(), 4);
    assert_eq!(m.get("low"), Some(4));
    assert_eq!(m.get("high"), Some(9));
    assert_eq!(m.entries.len(), 2);
    assert_eq!(m.copy().entries, m.entries);
}

#[test]
fn names_are_normalized() {
    assert_eq!(normalize_name("Iron Bar-2"), "iron_bar_2");
    assert_eq!(normalize_name("GOLEM core"), "golem_core");
    assert_eq!(normalize_name(""), "");
}

#[test]
fn lookups_find_the_first_matching_entry() {
    let t = table();
    assert_eq!(t.lookup_entry("IRON BAR").unwrap().name, "Iron Bar");
    assert!(t.lookup_entry("").is_none());
    assert!(t.lookup_entry("copper").is_none());
    assert_eq!(t.lookup("golem core").unwrap().get("normal"), Some(9));
    assert_eq!(t.lookup_price("iron bar", Popularity::Low, false), Some(40));
    assert_eq!(t.lookup_price("iron bar", Popularity::High, true), Some(600));
    assert_eq!(t.lookup_price("iron bar", Popularity::Low, true), Some(40));
    assert_eq!(t.lookup_price("golem_core", Popularity::High, false), None);
    assert_eq!(t.lookup_price("nothing", Popularity::Normal, false), None);
}

#[test]
fn search_keeps_table_order_and_limit() {
    let t = table();
    let found: Vec<&str> = t.search("iron", 20).iter().map(|e| e.name.as_str()).collect();
    assert_eq!(found, vec!["Iron Bar", "iron_bar"]);
    assert_eq!(t.search("iron", 1).len(), 1);
    assert_eq!(t.search("o", 20).len(), 3);
    assert!(t.search("", 20).is_empty());
    assert_eq!(t.search(" ", 20).len(), 3);
}

#[test]
fn popularity_names() {
    for p in [Popularity::Low, Popularity::Normal, Popularity::High] {
        assert_eq!(Popularity::from_template_name(p.as_key()), Some(p));
    }
    assert_eq!(Popularity::from_template_name("medium"), None);
    assert_eq!(Popularity::default(), Popularity::Normal);
}

#[test]
fn erosion_keeps_pixels_with_a_full_neighbourhood() {
    let mask = LumaImage { width: 5, height: 5, data: vec![255; 25] };
    let e = erode_mask(&mask, 1);
    for y in 0..5 {
        for x in 0..5 {
            let inner = (1..4).contains(&x) && (1..4).contains(&y);
            assert_eq!(e.data[y * 5 + x], if inner { 255 } else { 0 }, "({x}, {y})");
        }
    }
    assert_eq!(erode_mask(&mask, 0).data, mask.data);
    let mut holes = mask.clone();
    holes.data[12] = 0;
    assert!(erode_mask(&holes, 1).data.iter().all(|&v| v == 0));
}

#[test]
fn eroded_pixels_were_set() {
    let data: Vec<u8> = (0..49).map(|i| if i % 5 == 0 { 0 } else { 200 }).collect();
    let mask = LumaImage { width: 7, height: 7, data };
    let e = erode_mask(&mask, 1);
    for i in 0..49 {
        assert!(e.data[i] == 0 || mask.data[i] != 0);
    }
}

#[test]
fn autocrop_cuts_to_the_mask() {
    let mut m = vec![0u8; 16];
    m[5] = 255;
    m[10] = 255;
    let gray = LumaImage { width: 4, height: 4, data: (0..16).collect() };
    let mask = LumaImage { width: 4, height: 4, data: m };
    let (g, k) = autocrop_to_mask(gray.clone(), mask);
    assert_eq!((g.width, g.height, g.data), (2, 2, vec![5, 6, 9, 10]));
    assert_eq!((k.width, k.height, k.data), (2, 2, vec![255, 0, 0, 255]));
    let empty = LumaImage { width: 4, height: 4, data: vec![0; 16] };
    let (g, k) = autocrop_to_mask(gray.clone(), empty);
    assert_eq!(g.data, gray.data);
    assert_eq!(k.width, 4);
}

#[test]
fn decoding_gray_images() {
    let img = decode_gray(&gray_png(2, 2, vec![0, 50, 100, 150])).unwrap();
    assert_eq!((img.width, img.height, img.data), (2, 2, vec![0, 50, 100, 150]));
    assert!(decode_gray(b"not an image").is_err());
}

#[test]
fn automask_finds_the_foreground() {
    let (g, m) = automask_image(&framed_png()).unwrap();
    assert_eq!((g.width, g.height), (8, 8));
    assert!(g.data.iter().all(|&v| v == 255));
    assert!(m.data.iter().all(|&v| v == 255));
    assert!(automask_image(b"junk").is_err());
}

#[test]
fn mask_paths_and_stems() {
    let a = assets(vec![
        ("items/iron_bar.png", vec![]),
        ("items/iron_bar_mask.png", vec![]),
        ("items/prices.json", vec![]),
        ("identifier/popularity/low_mask.png", vec![]),
        ("items/sub/golem_mask.png", vec![]),
    ]);
    assert_eq!(collect_mask_paths(&a, "items/"), vec!["items/iron_bar_mask.png", "items/sub/golem_mask.png"]);
    assert_eq!(collect_mask_paths(&a, "identifier/popularity/"), vec!["identifier/popularity/low_mask.png"]);
    assert_eq!(price_file_paths(&a), vec!["items/prices.json"]);
    assert_eq!(a.iter().len(), 5);
    assert_eq!(stem_without_mask("items/sub/golem_mask.png").unwrap(), "golem");
    assert!(matches!(stem_without_mask("items/iron_bar.png"), Err(AssetError::MaskPath(p)) if p == "items/iron_bar.png"));
    assert!(matches!(stem_without_mask("a_mask.png/b"), Err(AssetError::MaskPath(_))));
}

#[test]
fn loading_reports_missing_and_broken_files() {
    let a = assets(vec![("x.png", b"junk".to_vec()), ("y.png", gray_png(1, 1, vec![9]))]);
    assert!(matches!(load_gray(&a, "none.png"), Err(AssetError::NotFound(p)) if p == "none.png"));
    assert!(matches!(load_gray(&a, "x.png"), Err(AssetError::Decode { path, .. }) if path == "x.png"));
    assert_eq!(load_gray(&a, "y.png").unwrap().data, vec![9]);
    assert!(matches!(load_image_and_automask(&a, "x.png"), Err(AssetError::Decode { .. })));
    assert!(matches!(load_anchors(&a), Err(AssetError::NotFound(p)) if p == "anchors/item_grid/item_grid.png"));
}

#[test]
fn anchors_load_in_order() {
    let names = [
        "anchors/item_grid/item_grid.png",
        "anchors/item_grid/item_grid_mask.png",
        "anchors/shop/top_right_corner.png",
        "anchors/shop/top_right_corner_mask.png",
        "anchors/shop/bottom_left_corner.png",
        "anchors/shop/bottom_left_corner_mask.png",
    ];
    let a = assets(names.iter().enumerate().map(|(i, n)| (*n, gray_png(1, 1, vec![i as u8]))).collect());
    let s = load_anchors(&a).unwrap();
    assert_eq!(s.item_grid.data, vec![0]);
    assert_eq!(s.item_grid_mask.data, vec![1]);
    assert_eq!(s.top_right.data, vec![2]);
    assert_eq!(s.top_right_mask.data, vec![3]);
    assert_eq!(s.bottom_left.data, vec![4]);
    assert_eq!(s.bottom_left_mask.data, vec![5]);
}

#[test]
fn item_templates_from_masks_and_plain_images() {
    let a = assets(vec![
        ("items/iron_bar.png", gray_png(6, 6, vec![200; 36])),
        ("items/iron_bar_mask.png", gray_png(6, 6, vec![255; 36])),
        ("items/prices.json", b"{}".to_vec()),
        ("items/golem_core.png", framed_png()),
        ("items/broken.png", b"junk".to_vec()),
        ("other/ignored.png", framed_png()),
    ]);
    let ts = load_item_templates(&a).unwrap();
    assert_eq!(ts.len(), 2);
    assert_eq!(ts[0].name, "iron_bar");
    assert_eq!((ts[0].template.width, ts[0].template.height), (2, 2));
    assert_eq!(ts[0].template.data, vec![200; 4]);
    assert_eq!(ts[0].mask.data, vec![255; 4]);
    assert_eq!(ts[1].name, "golem_core");
    assert_eq!((ts[1].mask.width, ts[1].mask.height), (8, 8));
}

#[test]
fn item_templates_fail_on_the_first_bad_mask() {
    let png = gray_png(1, 1, vec![255]);
    let missing = assets(vec![("items/a_mask.png", png.clone())]);
    assert!(matches!(load_item_templates(&missing), Err(AssetError::NotFound(p)) if p == "items/a.png"));
    let broken = assets(vec![("items/a_mask.png", png.clone()), ("items/a.png", b"junk".to_vec())]);
    assert!(matches!(load_item_templates(&broken), Err(AssetError::Decode { path, .. }) if path == "items/a.png"));
}

#[test]
fn popularity_templates() {
    let png = gray_png(2, 1, vec![1, 2]);
    let a = assets(vec![
        ("identifier/popularity/high.png", png.clone()),
        ("identifier/popularity/high_mask.png", gray_png(2, 1, vec![255, 0])),
    ]);
    let ts = load_popularity_templates(&a).unwrap();
    assert_eq!(ts.len(), 1);
    assert_eq!(ts[0].popularity, Popularity::High);
    assert_eq!(ts[0].template.data, vec![1, 2]);
    assert_eq!(ts[0].mask.data, vec![255, 0]);
    let bad = assets(vec![
        ("identifier/popularity/medium.png", png.clone()),
        ("identifier/popularity/medium_mask.png", png),
    ]);
    assert!(matches!(load_popularity_templates(&bad), Err(AssetError::Popularity(n)) if n == "medium"));
}

#[test]
fn every_search_result_contains_the_query() {
    let t = table();
    for q in ["iron", "BAR", "core", "n_b", "-"] {
        let nq = normalize_name(q);
        for e in t.search(q, 20) {
            assert!(normalize_name(&e.name).contains(&nq), "{q} {}", e.name);
        }
    }
}
