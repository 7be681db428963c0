use jpnorm_core::l4_extra::emoji::process;
use jpnorm_core::l4_extra::protect::{scan, segment, Kind};
use jpnorm_core::{EmojiAction, ProtectConfig};

#[test]
fn remove_basic() {
    assert_eq!(process("hello 😀 world", &EmojiAction::Remove), "hello  world");
}

#[test]
fn replace_basic() {
    assert_eq!(process("hi 🎉!!", &EmojiAction::replace("[emoji]")), "hi [emoji]!!");
}

#[test]
fn zwj_sequence_as_one() {
    let s = "family 👨\u{200D}👩\u{200D}👧 end";
    assert_eq!(process(s, &EmojiAction::replace("X")), "family X end");
}

#[test]
fn keep_passthrough() {
    assert_eq!(process("a😀b", &EmojiAction::Keep), "a😀b");
}

#[test]
fn detect_url() {
    let s = "詳しくは https://example.com/a?b=1 を見て。";
    let spans = scan(s, ProtectConfig::all());
    assert_eq!(spans.len(), 1);
    assert_eq!(spans[0].kind, Kind::Url);
    assert_eq!(&s[spans[0].range.clone()], "https://example.com/a?b=1");
}

#[test]
fn url_strips_trailing_punct() {
    let s = "here: https://example.com/path.";
    let spans = scan(s, ProtectConfig::all());
    assert_eq!(&s[spans[0].range.clone()], "https://example.com/path");
}

#[test]
fn detect_email() {
    let s = "連絡先: foo.bar+test@example.co.jp まで";
    let spans = scan(s, ProtectConfig::all());
    let email: Vec<_> = spans.iter().filter(|s| s.kind == Kind::Email).collect();
    assert_eq!(email.len(), 1);
    assert_eq!(&s[email[0].range.clone()], "foo.bar+test@example.co.jp");
}

#[test]
fn detect_mention_and_hashtag() {
    let s = "@alice と #rust_lang";
    let spans = scan(s, ProtectConfig::all());
    let kinds: Vec<_> = spans.iter().map(|s| s.kind).collect();
    assert_eq!(kinds, vec![Kind::Mention, Kind::Hashtag]);
}

#[test]
fn segment_split() {
    let s = "見て https://example.com/a を";
    let spans = scan(s, ProtectConfig::all());
    let segs = segment(s, &spans);
    assert_eq!(segs.len(), 3);
    assert!(matches!(segs[1], Err((_, Kind::Url))));
}

#[test]
fn nothing_protected_finds_nothing() {
    let s = "@alice https://example.com";
    assert!(scan(s, ProtectConfig::none()).is_empty());
    let segs = segment(s, &[]);
    assert_eq!(segs.len(), 1);
    assert!(matches!(segs[0], Ok(t) if t == s));
}

#[test]
fn email_regions_never_overlap() {
    let s = "x@y.z@w.v";
    let spans = scan(s, ProtectConfig::all());
    assert_eq!(spans.len(), 1);
    assert_eq!(spans[0].kind, Kind::Email);
    assert_eq!(&s[spans[0].range.clone()], "x@y.z");
}

#[test]
fn email_after_mention_does_not_reach_back() {
    let s = "@foo@bar.com";
    let spans = scan(s, ProtectConfig::all());
    assert_eq!(spans.len(), 1);
    assert_eq!(spans[0].kind, Kind::Mention);
    assert_eq!(&s[spans[0].range.clone()], "@foo");
}

#[test]
fn regions_ascend_and_stay_apart() {
    let s = "a@b.cd https://x.jp/p @me #tag e@f.gh";
    let spans = scan(s, ProtectConfig::all());
    assert_eq!(spans.len(), 5);
    for w in spans.windows(2) {
        assert!(w[0].range.end <= w[1].range.start);
    }
    for sp in &spans {
        assert!(sp.range.start < sp.range.end && sp.range.end <= s.len());
        assert!(s.is_char_boundary(sp.range.start) && s.is_char_boundary(sp.range.end));
    }
}

#[test]
fn segments_join_back_to_input() {
    let s = "見て https://example.com/a と @alice と x@y.z@w.v 終わり";
    let spans = scan(s, ProtectConfig::all());
    let segs = segment(s, &spans);
    let joined: String = segs
        .iter()
        .map(|x| match x {
            Ok(t) => *t,
            Err((t, _)) => *t,
        })
        .collect();
    assert_eq!(joined, s);
    let protected: Vec<(&str, Kind)> = segs.iter().filter_map(|x| x.err()).collect();
    assert_eq!(protected.len(), spans.len());
    for (p, sp) in protected.iter().zip(spans.iter()) {
        assert_eq!(p.0, &s[sp.range.clone()]);
        assert_eq!(p.1, sp.kind);
    }
    for w in segs.windows(2) {
        assert!(!(w[0].is_ok() && w[1].is_ok()));
    }
    assert!(segs.iter().all(|x| match x {
        Ok(t) => !t.is_empty(),
        Err(_) => true,
    }));
}
