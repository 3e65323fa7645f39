use aeropdf::render::{orient_page_image, PageImage, PendingRenders, RenderPlan};
use aeropdf::text::is_pdf_extension;

#[test]
fn render_requests() {
    let mut p = PendingRenders::new();
    assert_eq!(p.plan_request(3, true, true, 0), RenderPlan::Skip);
    assert_eq!(p.plan_request(3, false, true, 0), RenderPlan::PushFront);
    assert!(p.contains(3));
    assert_eq!(p.plan_request(3, false, false, 0), RenderPlan::Skip);
    assert_eq!(p.plan_request(4, false, false, 11), RenderPlan::PushBack);
    assert_eq!(p.plan_request(5, false, false, 12), RenderPlan::Drop);
    assert!(!p.contains(5));
    assert!(p.finish(3, true, 1, true, 1));
    assert!(!p.contains(3));
    assert!(!p.finish(4, false, 0, true, 0));
    assert!(!p.contains(4));
    p.plan_request(8, false, true, 0);
    p.clear();
    assert!(!p.contains(8));
}

fn image_2x1() -> PageImage {
    PageImage { width: 2, height: 1, pixels: vec![1, 2, 3, 4, 5, 6, 7, 8] }
}

#[test]
fn orientation_turns_pixels() {
    let r1 = orient_page_image(image_2x1(), 1);
    assert_eq!((r1.width, r1.height), (1, 2));
    assert_eq!(r1.pixels, vec![1, 2, 3, 4, 5, 6, 7, 8]);
    let r2 = orient_page_image(image_2x1(), 2);
    assert_eq!((r2.width, r2.height), (2, 1));
    assert_eq!(r2.pixels, vec![5, 6, 7, 8, 1, 2, 3, 4]);
    let r3 = orient_page_image(image_2x1(), 7);
    assert_eq!((r3.width, r3.height), (1, 2));
    assert_eq!(r3.pixels, vec![5, 6, 7, 8, 1, 2, 3, 4]);
    let r0 = orient_page_image(image_2x1(), 4);
    assert_eq!(r0.pixels, vec![1, 2, 3, 4, 5, 6, 7, 8]);
}

#[test]
fn quarter_turn_of_square() {
    let img = PageImage {
        width: 2,
        height: 2,
        pixels: (0u8..16).collect(),
    };
    let r = orient_page_image(img, 1);
    assert_eq!(r.pixels, vec![8, 9, 10, 11, 0, 1, 2, 3, 12, 13, 14, 15, 4, 5, 6, 7]);
}

#[test]
fn pdf_extension() {
    assert!(is_pdf_extension("pdf"));
    assert!(is_pdf_extension("PdF"));
    assert!(!is_pdf_extension("pdfx"));
    assert!(!is_pdf_extension("txt"));
}
