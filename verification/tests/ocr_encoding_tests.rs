use base64::Engine;
use nil_core::encoding::{decode_image_data, png_data_url};
use nil_core::ocr::{group_lines, read_table, tesseract_command, tesseract_next, TesseractStep};

const HEADER: &str =
    "level\tpage_num\tblock_num\tpar_num\tline_num\tword_num\tleft\ttop\twidth\theight\tconf\ttext";

fn row(block: i32, line: i32, left: &str, top: &str, w: &str, h: &str, conf: &str, text: &str) -> String {
    format!("5\t1\t{}\t1\t{}\t1\t{}\t{}\t{}\t{}\t{}\t{}", block, line, left, top, w, h, conf, text)
}

#[test]
fn words_keep_their_numeric_columns_as_written() {
    let tsv = [
        HEADER.to_string(),
        row(1, 1, "10.5", "20", "2.5", "10", "1e2", "Visit"),
        row(1, 1, "45", "18", "80", "14", "inf", "https://a.com."),
        row(2, 1, "10", "50", "40", "12", "88", "#ff0000"),
    ]
    .join("\n");
    let words = read_table(&tsv);
    assert_eq!(words.len(), 3);
    assert_eq!(words[0].text, "Visit");
    assert_eq!((words[0].left.as_str(), words[0].width.as_str(), words[0].confidence.as_str()), ("10.5", "2.5", "1e2"));
    assert_eq!((words[0].block, words[0].par, words[0].line), (1, 1, 1));
    assert!(words[0].entity.is_none());
    assert_eq!(words[1].entity, Some(("url".to_string(), "https://a.com".to_string())));
    assert_eq!(words[2].entity, Some(("color".to_string(), "#ff0000".to_string())));
}

#[test]
fn only_word_rows_with_text_are_read() {
    let tsv = [
        HEADER.to_string(),
        "5\t1\t1\t1\t4\t1\t0\t0\t20\t20\t99".to_string(),
        "4\t1\t1\t1\t5\t1\t0\t0\t20\t20\t99\tline".to_string(),
        row(1, 3, "0", "0", "20", "20", "99", "   "),
        row(1, 6, "0", "0", "20", "20", "-1", " kept "),
        "x\t1\tb\t1\t7\t1\t0\t0\t20\t20\t99\tlevel".to_string(),
    ]
    .join("\n");
    let words = read_table(&tsv);
    assert_eq!(words.len(), 1);
    assert_eq!(words[0].text, "kept");
    assert!(read_table("").is_empty());
    assert!(read_table(HEADER).is_empty());
}

#[test]
fn kept_words_gather_into_lines_in_key_order() {
    let tsv = [
        HEADER.to_string(),
        row(3, 1, "0", "100", "20", "20", "99", "third"),
        row(1, 2, "0", "40", "20", "20", "99", "second"),
        row(1, 1, "0", "0", "20", "20", "99", "first"),
        row(1, 2, "30", "40", "20", "20", "99", "www.x.org"),
        row(1, 2, "60", "40", "20", "20", "10", "dropped"),
    ]
    .join("\n");
    let words = read_table(&tsv);
    let keep = vec![true, true, true, true, false];
    let lines = group_lines(&words, &keep);
    let texts: Vec<String> = lines.iter().map(|l| l.text.clone()).collect();
    assert_eq!(texts, vec!["first", "second www.x.org", "third"]);
    assert_eq!((lines[1].block, lines[1].par, lines[1].line), (1, 1, 2));
    assert_eq!(lines[1].words.len(), 2);
    assert_eq!(lines[1].words[1].left, "30");
    assert_eq!(lines[1].entities.len(), 1);
    assert_eq!(lines[1].entities[0].word, 1);
    assert_eq!(lines[1].entities[0].kind, "url");
    assert_eq!(lines[1].entities[0].value, "https://www.x.org");
    assert!(group_lines(&words, &vec![false; 5]).is_empty());
}

#[test]
fn tesseract_command_lines() {
    let c = tesseract_command("/tmp/x.png", true);
    assert_eq!(c.program, "tesseract");
    assert_eq!(
        c.args,
        vec!["/tmp/x.png", "stdout", "tsv", "-l", "eng+spa", "--psm", "11", "-c", "preserve_interword_spaces=1"]
    );
    let d = tesseract_command("/tmp/x.png", false);
    assert_eq!(d.args, vec!["/tmp/x.png", "stdout", "tsv", "--psm", "11"]);
}

#[test]
fn tesseract_falls_back_without_languages() {
    assert!(matches!(tesseract_next("/p", true, true, true, ""), TesseractStep::ReadOutput));
    match tesseract_next("/p", true, true, false, "") {
        TesseractStep::Run(c) => assert_eq!(c.args, vec!["/p", "stdout", "tsv", "--psm", "11"]),
        _ => panic!("a failed first run falls back"),
    }
    assert!(matches!(tesseract_next("/p", true, false, false, "x"), TesseractStep::Run(_)));
    assert!(matches!(tesseract_next("/p", false, true, false, ""), TesseractStep::ReadOutput));
    match tesseract_next("/p", false, false, false, "not found") {
        TesseractStep::Fail(e) => assert_eq!(e, "Tesseract no disponible: not found"),
        _ => panic!("a fallback that cannot run fails"),
    }
}

#[test]
fn png_data_url_encodes_with_standard_base64() {
    assert_eq!(png_data_url(&[1, 2, 3]), "data:image/png;base64,AQID");
    assert_eq!(png_data_url(&[]), "data:image/png;base64,");
    let bytes: Vec<u8> = (0u8..=255).collect();
    let expected = format!(
        "data:image/png;base64,{}",
        base64::engine::general_purpose::STANDARD.encode(&bytes)
    );
    assert_eq!(png_data_url(&bytes), expected);
}

#[test]
fn image_data_is_decoded_from_a_data_url_or_bare_base64() {
    assert_eq!(decode_image_data(Some("data:image/png;base64,AQID".to_string())), Ok(vec![1, 2, 3]));
    assert_eq!(decode_image_data(Some(" AQID \n".to_string())), Ok(vec![1, 2, 3]));
    // only the first comma separates the header
    assert!(decode_image_data(Some("x,y, AQID ".to_string())).is_err());
    assert_eq!(decode_image_data(Some("y, AQID".to_string())), Ok(vec![1, 2, 3]));
}

#[test]
fn image_data_errors() {
    assert_eq!(decode_image_data(None), Err("No image data provided".to_string()));
    let e = decode_image_data(Some("data:,@@@@".to_string())).unwrap_err();
    assert!(e.starts_with("Base64 decode error: "));
    assert!(e.len() > "Base64 decode error: ".len());
}

#[test]
fn data_url_round_trip() {
    for bytes in [vec![], vec![0u8], vec![255u8, 254, 0, 7], (0u8..100).collect::<Vec<u8>>()] {
        assert_eq!(decode_image_data(Some(png_data_url(&bytes))), Ok(bytes.clone()));
    }
}
