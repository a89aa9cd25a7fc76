use check_login::template::{
    RgbaImage, find_and_click_template, find_templates_batch, get_roi_config, is_pixel_match,
    locate_template, roi_for, template_path, template_present,
};
use check_login::types::Roi;
use check_login::windows::{parse_running_windows, window_layout};

const BACKGROUND: [u8; 4] = [250, 0, 250, 255];

fn pattern(tx: u32, ty: u32) -> [u8; 4] {
    [(tx * 40) as u8, (ty * 40) as u8, 0, 255]
}

fn template() -> RgbaImage {
    let mut pixels = Vec::new();
    for ty in 0..6 {
        for tx in 0..6 {
            pixels.extend_from_slice(&pattern(tx, ty));
        }
    }
    RgbaImage { width: 6, height: 6, pixels }
}

fn screen_with_template_at(w: u32, h: u32, at: Option<(u32, u32)>) -> RgbaImage {
    let mut pixels = Vec::new();
    for y in 0..h {
        for x in 0..w {
            let px = match at {
                Some((ax, ay)) if x >= ax && x < ax + 6 && y >= ay && y < ay + 6 => pattern(x - ax, y - ay),
                _ => BACKGROUND,
            };
            pixels.extend_from_slice(&px);
        }
    }
    RgbaImage { width: w, height: h, pixels }
}

#[test]
fn pixel_comparison() {
    let t = template();
    let s = screen_with_template_at(20, 20, Some((7, 4)));
    assert!(is_pixel_match(&s, &t, 7, 4, 0, 0));
    assert!(is_pixel_match(&s, &t, 7, 4, 5, 5));
    assert!(!is_pixel_match(&s, &t, 8, 4, 0, 0));
    assert!(!is_pixel_match(&s, &t, 0, 0, 0, 0));
    let mut clear = template();
    clear.pixels[3] = 9;
    assert!(is_pixel_match(&s, &clear, 0, 0, 0, 0));
    clear.pixels[3] = 10;
    assert!(!is_pixel_match(&s, &clear, 0, 0, 0, 0));
}

#[test]
fn channel_difference_must_stay_below_forty() {
    let t = RgbaImage { width: 1, height: 1, pixels: vec![100, 100, 100, 255] };
    let near = RgbaImage { width: 1, height: 1, pixels: vec![139, 61, 100, 255] };
    let far = RgbaImage { width: 1, height: 1, pixels: vec![140, 100, 100, 255] };
    assert!(is_pixel_match(&near, &t, 0, 0, 0, 0));
    assert!(!is_pixel_match(&far, &t, 0, 0, 0, 0));
}

#[test]
fn template_found_anywhere_on_full_scan() {
    let t = Some(template());
    let s = screen_with_template_at(20, 20, Some((7, 4)));
    assert!(template_present(&s, &t, None));
    assert!(template_present(&s, &t, Some((5, 2, 9, 9))));
    assert!(!template_present(&s, &t, Some((0, 0, 5, 3))));
    let empty = screen_with_template_at(20, 20, None);
    assert!(!template_present(&empty, &t, None));
    assert!(!template_present(&s, &None, None));
    let small = screen_with_template_at(5, 5, None);
    assert!(!template_present(&small, &t, None));
}

#[test]
fn coarse_scan_taps_the_centre() {
    let t = Some(template());
    let on_grid = screen_with_template_at(20, 20, Some((6, 3)));
    assert_eq!(locate_template(&on_grid, &t, None), Some((9, 6)));
    let off_grid = screen_with_template_at(20, 20, Some((7, 4)));
    assert_eq!(locate_template(&off_grid, &t, None), None);
    assert_eq!(locate_template(&off_grid, &t, Some((1, 1, 14, 14))), Some((10, 7)));
    assert_eq!(locate_template(&on_grid, &None, None), None);
    let small = screen_with_template_at(4, 20, None);
    assert_eq!(locate_template(&small, &t, None), None);
}

#[test]
fn batch_check_and_click() {
    let t = Some(template());
    let s = Some(screen_with_template_at(20, 20, Some((6, 3))));
    let found = find_templates_batch(&s, &vec![t.clone(), None, t.clone()], &vec![None, None, Some((0, 0, 2, 2))]);
    assert_eq!(found, vec![true, false, false]);
    assert_eq!(find_templates_batch(&None, &vec![t.clone()], &vec![None]), vec![false]);
    let tap = find_and_click_template("emulator-5554", &s, &t, None).unwrap();
    assert_eq!(tap.program, "adb");
    assert_eq!(tap.args, vec!["-s", "emulator-5554", "shell", "input", "tap", "9", "6"]);
    assert!(find_and_click_template("emulator-5554", &None, &t, None).is_none());
    let blank = Some(screen_with_template_at(20, 20, None));
    assert!(find_and_click_template("emulator-5554", &blank, &t, None).is_none());
}

#[test]
fn template_file_path() {
    assert_eq!(template_path("C:\\tool\\template", "btn_ok.png"), "C:\\tool\\template\\btn_ok.png");
    assert_eq!(template_path("", "a.png"), "\\a.png");
}

#[test]
fn region_table_from_json() {
    let json = "{\"btn_ok.png\":[10,20,300,400],\"_comment\":[1,2,3,4],\"btn_login.png\":[1,2,3],\
                \"x.png\":[-1,\"a\",5000000000,7],\"y.png\":\"no\"}";
    let table = get_roi_config(&Some(json.to_string()));
    assert_eq!(table.len(), 2);
    assert_eq!(roi_for(&table, "btn_ok.png"), Some(Roi { x1: 10, y1: 20, x2: 300, y2: 400 }));
    assert_eq!(roi_for(&table, "x.png"), Some(Roi { x1: 0, y1: 0, x2: 705_032_704, y2: 7 }));
    assert_eq!(roi_for(&table, "btn_login.png"), None);
    assert_eq!(roi_for(&table, "_comment"), None);
    assert_eq!(roi_for(&table, "missing.png"), None);
}

#[test]
fn region_table_defaults_for_missing_numbers() {
    let table = get_roi_config(&Some("{\"b.png\":[null,true,{},[]]}".to_string()));
    assert_eq!(roi_for(&table, "b.png"), Some(Roi { x1: 0, y1: 0, x2: 960, y2: 540 }));
}

#[test]
fn region_table_without_a_json_object() {
    assert!(get_roi_config(&None).is_empty());
    assert!(get_roi_config(&Some("not json".to_string())).is_empty());
    assert!(get_roi_config(&Some("[1,2,3,4]".to_string())).is_empty());
    assert!(get_roi_config(&Some("{}".to_string())).is_empty());
}

#[test]
fn running_windows_sorted_by_index() {
    let out = "2,LDPlayer-2,333,0,1,0,0\n0,LDPlayer,111,0,1\n1,LDPlayer-1,0,0,1\n3,LDPlayer-3,444,0,0\n\
               x,Odd,555,0,1\nshort,line\n0,Twin,222,0,1\n";
    let got: Vec<(i32, isize, String)> = parse_running_windows(out)
        .into_iter()
        .map(|w| (w.index, w.hwnd, w.title))
        .collect();
    assert_eq!(
        got,
        vec![
            (-1, 555, "Odd".to_string()),
            (0, 111, "LDPlayer".to_string()),
            (0, 222, "Twin".to_string()),
            (2, 333, "LDPlayer-2".to_string()),
        ]
    );
    assert!(parse_running_windows("").is_empty());
}

#[test]
fn grid_layout() {
    let (w, cells) = window_layout(3, 1920, 2, 300).unwrap();
    assert_eq!(w, 960);
    assert_eq!(cells, vec![(0, 0), (960, 0), (0, 300)]);
    let (w, cells) = window_layout(7, 3840, 5, 400).unwrap();
    assert_eq!(w, 768);
    assert_eq!(cells[4], (3072, 0));
    assert_eq!(cells[5], (0, 400));
    assert_eq!(cells[6], (768, 400));
    assert!(window_layout(3, 1920, 0, 300).is_none());
    assert!(window_layout(3, i32::MIN, -1, 300).is_none());
    assert!(window_layout(3, 1920, 1, i32::MAX).is_none());
    let (w, cells) = window_layout(0, 1920, 4, 10).unwrap();
    assert_eq!(w, 480);
    assert!(cells.is_empty());
}

#[test]
fn layout_keeps_windows_apart_and_on_screen() {
    let (w, cells) = window_layout(12, 1000, 3, 200).unwrap();
    for (i, a) in cells.iter().enumerate() {
        assert!(a.0 >= 0 && a.0 + w <= 1000 && a.1 >= 0);
        for b in &cells[i + 1..] {
            assert_ne!(a, b);
        }
    }
}

#[test]
fn layout_with_negative_columns_rounds_toward_zero() {
    let (w, cells) = window_layout(3, 1000, -3, 10).unwrap();
    assert_eq!(w, -333);
    assert_eq!(cells, vec![(0, 0), (-333, 0), (-666, 0)]);
}
