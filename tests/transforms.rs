use rpack_opt::codecs::{digest_report, minify_json, minify_yaml, recompress_png, CodecError};
use rpack_opt::shader::strip_shader_comments;

#[test]
fn shader_comments_and_blank_lines_are_removed() {
    let src = "vec4 color; // comment\n\n   \nfoo;";
    assert_eq!(strip_shader_comments(src), "vec4 color;\nfoo;");
}

#[test]
fn shader_strip_is_idempotent() {
    let src = "  // header\nuniform float t; // time\r\n\n\tvoid main() {\n  gl_Position = p; \n}\n// end\n";
    let once = strip_shader_comments(src);
    assert_eq!(once, "uniform float t;\nvoid main() {\ngl_Position = p;\n}");
    assert_eq!(strip_shader_comments(&once), once);
    for line in once.split('\n') {
        assert!(!line.trim().is_empty());
    }
}

#[test]
fn shader_strip_of_empty_and_comment_only_sources() {
    assert_eq!(strip_shader_comments(""), "");
    assert_eq!(strip_shader_comments("// only\n   // more\n\n"), "");
}

#[test]
fn shader_strip_keeps_block_comments_and_cuts_inside_strings() {
    assert_eq!(strip_shader_comments("/* keep */ a;"), "/* keep */ a;");
    assert_eq!(strip_shader_comments("s = \"http://x\";"), "s = \"http:");
}

#[test]
fn json_is_minified() {
    assert_eq!(minify_json("{\"x\": 1,  \"y\": 2}"), Ok("{\"x\":1,\"y\":2}".to_string()));
    assert_eq!(
        minify_json("[ 1, 2 ,\n 3 ]\n"),
        Ok("[1,2,3]".to_string())
    );
}

#[test]
fn json_minify_is_idempotent() {
    let once = minify_json("{ \"a\" : [ true, null, \"s\" ], \"b\": { \"c\": 1.5 } }").unwrap();
    assert_eq!(minify_json(&once), Ok(once.clone()));
}

#[test]
fn json_blank_or_malformed_is_a_parse_error() {
    assert_eq!(minify_json(""), Err(CodecError::Parse));
    assert_eq!(minify_json("  \n\t "), Err(CodecError::Parse));
    assert_eq!(minify_json("{\"x\": }"), Err(CodecError::Parse));
}

#[test]
fn yaml_becomes_minified_json_with_the_same_content() {
    let yaml = "a: 1\nb:\n  - x\n  - y\nc: {d: true}\n";
    let out = minify_yaml(yaml).unwrap();
    assert_eq!(out, "{\"a\":1,\"b\":[\"x\",\"y\"],\"c\":{\"d\":true}}");
    let from_json: serde_json::Value = serde_json::from_str(&out).unwrap();
    let from_yaml: serde_json::Value = serde_yaml::from_str(yaml).unwrap();
    assert_eq!(from_json, from_yaml);
}

#[test]
fn yaml_malformed_is_a_parse_error() {
    assert_eq!(minify_yaml("a: [1, 2\nb: }"), Err(CodecError::Parse));
}

fn crc32(data: &[u8]) -> u32 {
    let mut crc: u32 = 0xffff_ffff;
    for &b in data {
        crc ^= b as u32;
        for _ in 0..8 {
            let mask = (crc & 1).wrapping_neg();
            crc = (crc >> 1) ^ (0xedb8_8320 & mask);
        }
    }
    !crc
}

fn chunk(out: &mut Vec<u8>, kind: &[u8], data: &[u8]) {
    out.extend_from_slice(&(data.len() as u32).to_be_bytes());
    let mut body = kind.to_vec();
    body.extend_from_slice(data);
    out.extend_from_slice(&body);
    out.extend_from_slice(&crc32(&body).to_be_bytes());
}

fn tiny_png() -> Vec<u8> {
    let mut raw: Vec<u8> = Vec::new();
    for _ in 0..16 {
        raw.push(0);
        for _ in 0..16 {
            raw.extend_from_slice(&[200, 30, 30]);
        }
    }
    let mut a: u32 = 1;
    let mut b: u32 = 0;
    for &x in &raw {
        a = (a + x as u32) % 65521;
        b = (b + a) % 65521;
    }
    let mut z = vec![0x78, 0x01, 0x01];
    z.extend_from_slice(&(raw.len() as u16).to_le_bytes());
    z.extend_from_slice(&(!(raw.len() as u16)).to_le_bytes());
    z.extend_from_slice(&raw);
    z.extend_from_slice(&((b << 16) | a).to_be_bytes());
    let mut png = vec![0x89, b'P', b'N', b'G', 0x0d, 0x0a, 0x1a, 0x0a];
    let mut ihdr = Vec::new();
    ihdr.extend_from_slice(&16u32.to_be_bytes());
    ihdr.extend_from_slice(&16u32.to_be_bytes());
    ihdr.extend_from_slice(&[8, 2, 0, 0, 0]);
    chunk(&mut png, b"IHDR", &ihdr);
    chunk(&mut png, b"IDAT", &z);
    chunk(&mut png, b"IEND", &[]);
    png
}

#[test]
fn png_is_recompressed() {
    let png = tiny_png();
    let out = recompress_png(&png).unwrap();
    assert_eq!(&out[..8], &png[..8]);
    assert_ne!(out, png);
    assert!(out.len() < png.len());
    assert_eq!(recompress_png(&png), Ok(out.clone()));
    let again = recompress_png(&out).unwrap();
    assert!(again.len() <= out.len());
}

#[test]
fn png_that_is_not_an_image_fails() {
    assert_eq!(recompress_png(&b"not an image".to_vec()), Err(CodecError::Image));
}

#[test]
fn digest_report_names_the_sha1_of_the_bytes() {
    assert_eq!(
        digest_report(&b"abc".to_vec()),
        "Zip file SHA-1 hash: a9993e364706816aba3e25717850c26c9cd0d89d"
    );
    assert_eq!(
        digest_report(&Vec::new()),
        "Zip file SHA-1 hash: da39a3ee5e6b4b0d3255bfef95601890afd80709"
    );
}

#[test]
fn yaml_blank_is_a_parse_error() {
    assert_eq!(minify_yaml(""), Err(CodecError::Parse));
    assert_eq!(minify_yaml("  \n\t\n"), Err(CodecError::Parse));
}
