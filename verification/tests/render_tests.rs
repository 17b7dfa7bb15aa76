use swatchgen::raster::{rasterize, RasterError};
use swatchgen::render::{render, MediaType, Status};

const PNG_SIGNATURE: [u8; 8] = [137, 80, 78, 71, 13, 10, 26, 10];

fn test_template() -> String {
    let mut t = String::new();
    t.push_str("<svg xmlns=\"http://www.w3.org/2000/svg\" width=\"100\" height=\"20\">");
    let mut i = 0;
    while i < 5 {
        t.push_str(&format!(
            "<rect x=\"{}\" y=\"0\" width=\"20\" height=\"20\" fill=\"#{{bg_{}}}\"/>",
            i * 20,
            i
        ));
        t.push_str(&format!(
            "<rect x=\"{}\" y=\"8\" width=\"4\" height=\"4\" fill=\"#{{text_{}}}\"/>",
            i * 20 + 8,
            i
        ));
        i += 1;
    }
    t.push_str("</svg>");
    t
}

fn five(colors: [&str; 5]) -> Vec<String> {
    colors.iter().map(|c| c.to_string()).collect()
}

#[test]
fn render_valid_colors_gives_png() {
    let template = test_template();
    let colors = five(["FFFFFF", "000000", "FF0000", "00FF00", "0000FF"]);
    let response = render(&template, &colors);
    assert_eq!(response.status, Status::Success);
    assert_eq!(response.status.code(), 200);
    assert_eq!(response.media, MediaType::Png);
    assert_eq!(response.media.mime(), "image/png");
    assert!(response.body.len() > 8);
    assert_eq!(&response.body[0..8], &PNG_SIGNATURE);
}

#[test]
fn render_invalid_first_color_gives_bad_request() {
    let template = test_template();
    let colors = five(["GGGGGG", "000000", "FF0000", "00FF00", "0000FF"]);
    let response = render(&template, &colors);
    assert_eq!(response.status, Status::BadRequest);
    assert_eq!(response.status.code(), 400);
    assert_eq!(response.media, MediaType::Html);
    assert_eq!(response.media.mime(), "text/html");
    assert!(response.body.is_empty());
}

#[test]
fn render_invalid_last_color_gives_bad_request() {
    let template = test_template();
    let colors = five(["FFFFFF", "000000", "FF0000", "00FF00", "0000F"]);
    let response = render(&template, &colors);
    assert_eq!(response.status, Status::BadRequest);
    assert!(response.body.is_empty());
}

#[test]
fn render_is_idempotent_byte_for_byte() {
    let template = test_template();
    let colors = five(["1a2B3c", "000000", "FF0000", "00FF00", "0000FF"]);
    let first = render(&template, &colors);
    let second = render(&template, &colors);
    assert_eq!(first.status, Status::Success);
    assert_eq!(second.status, Status::Success);
    assert_eq!(first.body, second.body);
}

#[test]
fn render_corrupt_template_gives_server_error() {
    let template = "not vector markup at all";
    let colors = five(["FFFFFF", "000000", "FF0000", "00FF00", "0000FF"]);
    let response = render(template, &colors);
    assert_eq!(response.status, Status::ServerError);
    assert_eq!(response.status.code(), 500);
    assert_eq!(response.media, MediaType::Html);
    assert!(response.body.is_empty());
}

#[test]
fn rasterize_accepts_well_formed_markup() {
    let template = test_template();
    // a document with the placeholders already filled in by hand
    let doc = template
        .replace("{bg_0}", "FFFFFF")
        .replace("{text_0}", "000000")
        .replace("{bg_1}", "000000")
        .replace("{text_1}", "FFFFFF")
        .replace("{bg_2}", "FF0000")
        .replace("{text_2}", "FFFFFF")
        .replace("{bg_3}", "00FF00")
        .replace("{text_3}", "000000")
        .replace("{bg_4}", "0000FF")
        .replace("{text_4}", "FFFFFF");
    let bytes = rasterize(&doc).unwrap();
    assert_eq!(&bytes[0..8], &PNG_SIGNATURE);
}

#[test]
fn rasterize_rejects_oversized_dimensions() {
    // a row of 600 million pixels overflows the renderer's 31-bit row limit
    let doc = "<svg xmlns=\"http://www.w3.org/2000/svg\" width=\"600000000\" height=\"10\"/>";
    assert_eq!(rasterize(doc).unwrap_err(), RasterError::Allocation);
}

#[test]
fn rasterize_rejects_malformed_markup() {
    assert_eq!(rasterize("<svg").unwrap_err(), RasterError::Parse);
    assert_eq!(rasterize("plain text").unwrap_err(), RasterError::Parse);
}
