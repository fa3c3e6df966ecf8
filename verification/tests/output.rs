use tracer::args::TracerArgs;
use tracer::writers::{
    format_named, guess_output_format, write_decimal, OutputFormat, PNGWriter, PPMWriter,
    WriterError,
};

fn text(bytes: &[u8]) -> String {
    String::from_utf8(bytes.to_vec()).unwrap()
}

#[test]
fn decimal_digits() {
    for n in [0usize, 7, 9, 10, 11, 99, 100, 255, 256, 1000, 65535, 4294967295, usize::MAX] {
        let mut out = Vec::new();
        write_decimal(&mut out, n);
        assert_eq!(text(&out), format!("{}", n));
    }
}

#[test]
fn decimal_appends_to_what_is_there() {
    let mut out = vec![b'x', b'='];
    write_decimal(&mut out, 120);
    assert_eq!(text(&out), "x=120");
}

#[test]
fn the_header_of_the_text_format() {
    let mut out = Vec::new();
    PPMWriter::write_header(&mut out, 400, 300);
    assert_eq!(text(&out), "P3 400 300\n255\n");
    let mut out = Vec::new();
    PPMWriter::write_header(&mut out, 0, 1);
    assert_eq!(text(&out), "P3 0 1\n255\n");
}

#[test]
fn the_line_of_a_pixel() {
    let mut out = Vec::new();
    PPMWriter::write_color(&mut out, (255, 0, 17));
    assert_eq!(text(&out), "255 0 17\n");
    PPMWriter::write_color(&mut out, (1, 22, 133));
    assert_eq!(text(&out), "255 0 17\n1 22 133\n");
}

#[test]
fn an_image_as_text() {
    let data = vec![(255, 0, 0), (0, 255, 0), (0, 0, 255), (10, 20, 30), (0, 0, 0), (255, 255, 255)];
    let mut out = Vec::new();
    PPMWriter.write_to(&mut out, &data, 3, 2);
    assert_eq!(
        text(&out),
        "P3 3 2\n255\n255 0 0\n0 255 0\n0 0 255\n10 20 30\n0 0 0\n255 255 255\n"
    );
}

#[test]
fn an_image_without_pixels_as_text() {
    let mut out = Vec::new();
    PPMWriter.write_to(&mut out, &Vec::new(), 0, 0);
    assert_eq!(text(&out), "P3 0 0\n255\n");
}

#[test]
fn the_channels_in_a_row() {
    assert_eq!(PNGWriter::encodable(&vec![(1, 2, 3), (4, 5, 6)]), vec![1, 2, 3, 4, 5, 6]);
    assert!(PNGWriter::encodable(&Vec::new()).is_empty());
}

#[test]
fn an_image_as_png_reads_back_as_it_was() {
    let data = vec![(255, 0, 0), (0, 255, 0), (0, 0, 255), (10, 20, 30), (0, 0, 0), (255, 255, 255)];
    let mut out = Vec::new();
    assert_eq!(PNGWriter.write_to(&mut out, &data, 3, 2), Ok(()));
    assert_eq!(&out[..8], &[137, 80, 78, 71, 13, 10, 26, 10]);
    assert_ne!(out, PNGWriter::encodable(&data));
    let read = image::load_from_memory(&out).unwrap().to_rgb8();
    assert_eq!((read.width(), read.height()), (3, 2));
    for (place, color) in data.iter().enumerate() {
        let pixel = read.get_pixel((place % 3) as u32, (place / 3) as u32);
        assert_eq!((pixel[0], pixel[1], pixel[2]), *color);
    }
}

#[test]
fn png_is_appended_to_what_is_there() {
    let mut alone = Vec::new();
    assert_eq!(PNGWriter.write_to(&mut alone, &vec![(1, 2, 3)], 1, 1), Ok(()));
    let mut after = vec![9u8, 9, 9];
    assert_eq!(PNGWriter.write_to(&mut after, &vec![(1, 2, 3)], 1, 1), Ok(()));
    assert_eq!(&after[..3], &[9, 9, 9]);
    assert_eq!(&after[3..], &alone[..]);
}

#[test]
fn the_same_image_gives_the_same_png() {
    let data = vec![(1, 2, 3), (4, 5, 6), (7, 8, 9), (10, 11, 12)];
    let mut first = Vec::new();
    let mut second = Vec::new();
    assert_eq!(PNGWriter.write_to(&mut first, &data, 2, 2), Ok(()));
    assert_eq!(PNGWriter.write_to(&mut second, &data, 2, 2), Ok(()));
    assert_eq!(first, second);
}

#[test]
fn a_refused_image_leaves_the_output_as_it_was() {
    let mut out = vec![1u8, 2, 3];
    // Two pixels are no image of two by two.
    assert_eq!(PNGWriter.write_to(&mut out, &vec![(1, 2, 3), (4, 5, 6)], 2, 2), Err(WriterError::Encoding));
    assert_eq!(out, vec![1, 2, 3]);
    // An image needs a width and a height.
    assert_eq!(PNGWriter.write_to(&mut out, &Vec::new(), 0, 0), Err(WriterError::Encoding));
    assert_eq!(PNGWriter.write_to(&mut out, &Vec::new(), 0, 4), Err(WriterError::Encoding));
    assert_eq!(PNGWriter.write_to(&mut out, &Vec::new(), 4, 0), Err(WriterError::Encoding));
    assert_eq!(out, vec![1, 2, 3]);
}

#[test]
fn what_the_encoder_made_is_appended() {
    let mut out = vec![1u8];
    assert_eq!(PNGWriter::append_encoded(&mut out, Ok(vec![2, 3])), Ok(()));
    assert_eq!(out, vec![1, 2, 3]);
    assert_eq!(PNGWriter::append_encoded(&mut out, Ok(Vec::new())), Ok(()));
    assert_eq!(out, vec![1, 2, 3]);
}

#[test]
fn the_format_of_an_extension() {
    assert_eq!(guess_output_format("ppm"), Some(OutputFormat::Ppm));
    assert_eq!(guess_output_format("png"), Some(OutputFormat::Png));
    assert_eq!(guess_output_format("PNG"), Some(OutputFormat::Png));
    assert_eq!(guess_output_format("PpM"), Some(OutputFormat::Ppm));
    assert_eq!(guess_output_format("jpg"), None);
    assert_eq!(guess_output_format(""), None);
    assert_eq!(guess_output_format("png "), None);
    assert_eq!(guess_output_format(".png"), None);
    assert_eq!(guess_output_format("pn"), None);
}

#[test]
fn the_format_of_a_clean_name_minds_the_case() {
    assert_eq!(format_named(&"ppm".to_string()), Some(OutputFormat::Ppm));
    assert_eq!(format_named(&"png".to_string()), Some(OutputFormat::Png));
    assert_eq!(format_named(&"PNG".to_string()), None);
    assert_eq!(format_named(&"".to_string()), None);
}

#[test]
fn the_render_asked_for_by_default() {
    let args = TracerArgs::default();
    assert_eq!(args.width, 400);
    assert_eq!(args.height, 300);
    assert_eq!(args.depth, 10);
    assert_eq!(args.samples, 100);
    assert_eq!(args.num_threads, 4);
    assert_eq!(args.output_path, None);
    assert!(args.is_valid());
}

#[test]
fn a_render_of_nothing_is_not_valid() {
    let valid = TracerArgs::default();
    assert!(!TracerArgs { width: 0, ..valid.clone() }.is_valid());
    assert!(!TracerArgs { height: 0, ..valid.clone() }.is_valid());
    assert!(!TracerArgs { depth: 0, ..valid.clone() }.is_valid());
    assert!(!TracerArgs { num_threads: 0, ..valid.clone() }.is_valid());
    assert!(TracerArgs { samples: 0, output_path: Some("out.png".to_string()), ..valid }.is_valid());
}

#[test]
fn the_encoder_decides_the_same_way_each_time() {
    let data = vec![(1, 2, 3), (4, 5, 6)];
    for _ in 0..3 {
        let mut out = Vec::new();
        assert_eq!(PNGWriter.write_to(&mut out, &data, 2, 2), Err(WriterError::Encoding));
        assert!(out.is_empty());
        assert_eq!(PNGWriter.write_to(&mut out, &data, 2, 1), Ok(()));
        assert_eq!(PNGWriter.write_to(&mut out, &data, 1, 2), Ok(()));
        assert!(!out.is_empty());
    }
}
