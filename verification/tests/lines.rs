use divatree::line::KeyValue;
use divatree::text::split_lines;
use divatree::window::LexerChildren;

#[test]
fn lexer_children() {
    const INPUT: &'static str = "foo.bar = 1
foo.baz = 1
foo.quux = 1
foobar = 1
";

    let lines = split_lines(INPUT);
    let mut child = LexerChildren::new(lines.clone());
    assert_eq!(child.next(), Some(lines[0].clone()));
    assert_eq!(child.next(), Some(lines[1].clone()));
    assert_eq!(child.next(), Some(lines[2].clone()));
    assert_eq!(child.next(), Some(lines[3].clone()));
    assert_eq!(child.next(), None);

    assert_eq!(LexerChildren::new(split_lines("")).next(), None);
}

#[test]
fn lexer_chidren_stripped() {
    const INPUT: &'static str = "foo.bar = 1
foo.baz = 1
foo.quux = 1
foobar = 1
";

    let mut child = LexerChildren::new(split_lines(INPUT)).with_prefix_level(1);
    assert_eq!(child.next(), Some("bar = 1".to_string()));
    assert_eq!(child.next(), Some("baz = 1".to_string()));
    assert_eq!(child.next(), Some("quux = 1".to_string()));
    assert_eq!(child.next(), None);
}

#[test]
fn lexer_chidren_strip_switch() {
    const INPUT: &'static str = "foo.bar.baz = 1
foo.bar.quux = 1
test = 1
foobar.baz = 1
foobar.quux = 1
";

    let mut child = LexerChildren::new(split_lines(INPUT)).with_prefix_level(1);
    assert_eq!(child.next(), Some("bar.baz = 1".to_string()));
    assert_eq!(child.next(), Some("bar.quux = 1".to_string()));
    assert_eq!(child.set_prefix_level(0), Some("foo.".to_string()));
    assert_eq!(child.next(), Some("foo.bar.quux = 1".to_string()));
    assert_eq!(child.next(), Some("test = 1".to_string()));
    child.next();
    assert_eq!(child.set_prefix_level(1), Some("".to_string()));
    assert_eq!(child.next(), Some("baz = 1".to_string()));
    assert_eq!(child.next(), Some("quux = 1".to_string()));
    assert_eq!(child.next(), None);
}

#[test]
fn key_value_new() {
    let kv = KeyValue::new(" foo.bar = baz ").unwrap();
    assert_eq!(kv.key, "foo.bar");
    let kr = kv.key_range();
    assert_eq!(kv.orig.get(kr.start..kr.end), Some(kv.key.as_str()));
    assert_eq!(kv.value, "baz");
    let vr = kv.value_range();
    assert_eq!(kv.orig.get(vr.start..vr.end), Some(kv.value.as_str()));

    let kv = KeyValue::new("= baz ").unwrap();
    assert_eq!(kv.key, "");
    let kr = kv.key_range();
    assert_eq!(kv.orig.get(kr.start..kr.end), Some(kv.key.as_str()));
    assert_eq!(kv.value, "baz");
    let vr = kv.value_range();
    assert_eq!(kv.orig.get(vr.start..vr.end), Some(kv.value.as_str()));

    let kv = KeyValue::new(" bar = ").unwrap();
    assert_eq!(kv.key, "bar");
    let kr = kv.key_range();
    assert_eq!(kv.orig.get(kr.start..kr.end), Some(kv.key.as_str()));
    assert_eq!(kv.value, "");
    let vr = kv.value_range();
    assert_eq!(kv.orig.get(vr.start..vr.end), Some(kv.value.as_str()));
}

#[test]
fn key_value_prefix() {
    let kv = KeyValue::new("foo.bar.baz = 1").unwrap();

    assert_eq!(kv.prefix(0), Some("".to_string()));
    assert_eq!(kv.prefix(1), Some("foo.".to_string()));
    assert_eq!(kv.prefix(2), Some("foo.bar.".to_string()));
    assert_eq!(kv.prefix(3), Some("foo.bar.baz".to_string()));
    assert_eq!(kv.prefix(4), None);

    let singleton = KeyValue::new("foo = 1").unwrap().prefixes();
    assert_eq!(singleton, vec!["".to_string(), "foo".to_string()]);

    let empty = KeyValue::new(" = 1").unwrap().prefixes();
    assert_eq!(empty, vec!["".to_string()]);
}

#[test]
fn key_value_path() {
    let kv = KeyValue::new(" = 1").unwrap();

    assert_eq!(kv.path(), Vec::<String>::new());
}

#[test]
fn byte_offset() {
    const INPUT: &'static str = "foo.bar.baz = 1
foo.bar.quux = 1
test = 1
";
    let mut iter = LexerChildren::new(split_lines(INPUT));
    assert_eq!(iter.byte_offset(), (0, 0));
    iter.next();
    assert_eq!(iter.byte_offset(), (0, 16));
    assert_eq!(&INPUT[0..16], "foo.bar.baz = 1\n");
    iter.next();
    assert_eq!(iter.byte_offset(), (16, 33));
    assert_eq!(&INPUT[16..33], "foo.bar.quux = 1\n");
    iter.next();
    assert_eq!(iter.byte_offset(), (33, 42));
    assert_eq!(&INPUT[33..42], "test = 1\n");
}

#[test]
fn prefixes_grow_by_containment() {
    let kv = KeyValue::new("a.bb.ccc.d = 1").unwrap();
    let ps = kv.prefixes();
    assert_eq!(ps.len(), 5);
    for i in 1..ps.len() {
        assert!(ps[i].starts_with(ps[i - 1].as_str()));
    }
}

#[test]
fn strip_and_levels() {
    let kv = KeyValue::new("foo.bar.baz = 7").unwrap();
    let s1 = kv.strip(1).unwrap();
    assert_eq!(s1.key, "bar.baz");
    assert_eq!(s1.value, "7");
    assert_eq!(s1.orig, kv.orig);
    let s3 = kv.strip(3).unwrap();
    assert_eq!(s3.key, "");
    assert!(kv.strip(4).is_none());

    let levels = kv.levels();
    assert_eq!(levels.len(), 5);
    assert_eq!(levels[0].key, "foo.bar.baz");
    assert_eq!(levels[1].key, "foo.bar.baz");
    assert_eq!(levels[2].key, "bar.baz");
    assert_eq!(levels[3].key, "baz");
    assert_eq!(levels[4].key, "");
}

#[test]
fn split_lines_endings() {
    assert_eq!(split_lines("a\r\nb\nc"), vec!["a", "b", "c"]);
    assert_eq!(split_lines("a\nb\n"), vec!["a", "b"]);
    assert_eq!(split_lines("a\n\nb"), vec!["a", "", "b"]);
    assert_eq!(split_lines(""), Vec::<String>::new());
}

#[test]
fn value_is_remainder_after_first_delimiter() {
    let kv = KeyValue::new("a = b = c").unwrap();
    assert_eq!(kv.key, "a");
    assert_eq!(kv.value, "b = c");
    assert!(KeyValue::new("no delimiter").is_none());
}
