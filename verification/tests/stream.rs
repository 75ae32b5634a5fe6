use llama::model::StreamDispatch;
use llama::stream::filter::Filter;
use llama::stream::sink::Sink;
use llama::stream::stop::{contains_stop_suffix, find_stop, incomplete_unicode, truncate_stop};

fn b(s: &str) -> Vec<u8> {
    s.as_bytes().to_vec()
}

fn v(xs: &[&str]) -> Vec<Vec<u8>> {
    xs.iter().map(|s| b(s)).collect()
}

fn collect(f: &mut Filter, pieces: &[&str]) -> (Vec<u8>, bool) {
    let mut emitted = Vec::new();
    for p in pieces {
        let (e, s) = f.push(p.as_bytes());
        emitted.extend_from_slice(&e);
        if s {
            return (emitted, true);
        }
    }
    emitted.extend_from_slice(&f.flush());
    (emitted, false)
}

fn no_user() -> Option<fn(&[u8]) -> bool> {
    None
}

#[test]
fn filter_no_stops() {
    let mut f = Filter::new(vec![]);
    let (got, stopped) = collect(&mut f, &["hello ", "world"]);
    assert_eq!(got, b("hello world"));
    assert!(!stopped);
}

#[test]
fn filter_stop_within_piece() {
    let mut f = Filter::new(v(&["<end>"]));
    let (got, stopped) = collect(&mut f, &["keep<end>drop"]);
    assert_eq!(got, b("keep"));
    assert!(stopped);
}

#[test]
fn filter_stop_split_across_pieces() {
    let mut f = Filter::new(v(&["<end>"]));

    let (e1, s1) = f.push(b"keep<");
    assert_eq!(e1, b(""));
    assert!(!s1);

    let (e2, s2) = f.push(b"end>drop");
    assert_eq!(e2, b("keep"));
    assert!(s2);
}

#[test]
fn filter_partial_that_is_not_stop() {
    let mut f = Filter::new(v(&["<end>"]));

    let (e1, _) = f.push(b"a<");
    let (e2, _) = f.push(b"b");

    assert_eq!(e1, b(""));
    assert_eq!(e2, b("a<b"));
}

#[test]
fn filter_multibyte_split() {
    let mut f = Filter::new(vec![]);

    let (e1, _) = f.push(&[b'x', 0xC3]);
    assert_eq!(e1, b(""));

    let (e2, _) = f.push(&[0xA9, b'y']);
    assert_eq!(e2, b("xéy"));
}

#[test]
fn filter_flush_remainder() {
    let mut f = Filter::new(v(&["<end>"]));

    f.push(b"ab<");

    assert_eq!(f.flush(), b("ab<"));
}

#[test]
fn filter_stop_at_start() {
    let mut f = Filter::new(v(&["<end>"]));
    let (got, stopped) = collect(&mut f, &["<end>tail"]);
    assert_eq!(got, b(""));
    assert!(stopped);
}

#[test]
fn filter_consecutive_holds() {
    let mut f = Filter::new(v(&["<end>"]));

    for p in ["<", "e", "n", "d"] {
        let (e, s) = f.push(p.as_bytes());
        assert_eq!(e, b(""));
        assert!(!s);
    }

    let (e, s) = f.push(b">x");
    assert_eq!(e, b(""));
    assert!(s);
}

#[test]
fn filter_empty_stops_passthrough() {
    let mut f = Filter::new(vec![]);
    let (got, stopped) = collect(&mut f, &["plain ", "text"]);
    assert_eq!(got, b("plain text"));
    assert!(!stopped);
}

#[test]
fn filter_emitted_and_held_text_make_up_the_input() {
    // What the filter emits plus what it still holds is the text fed so far.
    let mut f = Filter::new(v(&["<end>"]));
    let (e1, _) = f.push(b"ab");
    let (e2, _) = f.push(b"<e");
    let rest = f.flush();
    let mut all = e1.clone();
    all.extend_from_slice(&e2);
    all.extend_from_slice(&rest);
    assert_eq!(e1, b("ab"));
    assert_eq!(e2, b(""));
    assert_eq!(rest, b("<e"));
    assert_eq!(all, b("ab<e"));
}

#[test]
fn sink_passthrough() {
    let mut got: Vec<Vec<u8>> = Vec::new();
    {
        let mut s = Sink::new(
            vec![],
            Some(|e: &[u8]| {
                got.push(e.to_vec());
                true
            }),
        );

        for p in ["Hello", ", ", "world"] {
            assert!(s.on_token(p.as_bytes()), "OnToken({p:?}) = false, want true");
        }

        let res = s.finish();
        assert_eq!(res, b("Hello, world"));
    }

    assert_eq!(got, v(&["Hello", ", ", "world"]));
}

#[test]
fn sink_stop_within_one_piece() {
    let mut s = Sink::new(v(&["<end>"]), no_user());
    assert!(!s.on_token(b"hi <end> there"), "OnToken with stop = true, want false (halt)");

    let res = s.finish();
    assert_eq!(res, b("hi "));
}

#[test]
fn sink_stop_split_across_pieces() {
    let mut s = Sink::new(v(&["<end>"]), no_user());
    assert!(s.on_token(b"answer<"), "first OnToken = false, want true (hold)");
    assert!(!s.on_token(b"end> more"), "second OnToken = true, want false (stop)");

    let res = s.finish();
    assert_eq!(res, b("answer"));
}

#[test]
fn sink_partial_stop_resolves_to_text() {
    let mut s = Sink::new(v(&["<end>"]), no_user());
    assert!(s.on_token(b"a<"), "first OnToken = false, want true (hold ambiguous tail)");
    assert!(s.on_token(b"x"), "second OnToken = false, want true (disambiguated, not a stop)");

    let res = s.finish();
    assert_eq!(res, b("a<x"));
}

#[test]
fn sink_split_utf8() {
    let mut s = Sink::new(vec![], no_user());

    assert!(s.on_token(&[b'c', b'a', b'f', 0xC3]), "first OnToken = false, want true (hold incomplete UTF-8)");
    assert!(s.on_token(&[0xA9]), "second OnToken = false, want true");

    let res = s.finish();
    assert_eq!(res, b("café"));
    assert!(std::str::from_utf8(&res).is_ok(), "Finish() is not valid UTF-8");
}

#[test]
fn sink_user_halt() {
    let mut s = Sink::new(vec![], Some(|_: &[u8]| false));
    assert!(!s.on_token(b"stop me"), "OnToken = true, want false (user halt)");

    let res = s.finish();
    assert_eq!(res, b("stop me"));
}

#[test]
fn sink_flush_remainder() {
    let mut s = Sink::new(vec![], no_user());

    assert!(s.on_token(&[b'h', b'i', 0xC3]), "OnToken = false, want true (hold)");

    let res = s.finish();
    assert_eq!(res, vec![b'h', b'i', 0xC3]);
}

#[test]
fn sink_finish_forwards_held_text() {
    let mut got: Vec<Vec<u8>> = Vec::new();
    {
        let mut s = Sink::new(
            v(&["<end>"]),
            Some(|e: &[u8]| {
                got.push(e.to_vec());
                true
            }),
        );
        assert!(s.on_token(b"ok"));
        assert!(s.on_token(b"<e"));
        assert_eq!(s.finish(), b("ok<e"));
    }
    assert_eq!(got, v(&["ok", "<e"]));
}

#[test]
fn find_stop_hits_and_misses() {
    let stops = v(&["</s>", "STOP"]);

    assert_eq!(find_stop(b"hello</s>", &stops), Some(b("</s>")));
    assert_eq!(find_stop(b"hello world", &stops), None);
    assert_eq!(find_stop(b"anything", &v(&[])), None);
}

#[test]
fn find_stop_returns_first_listed_stop() {
    let stops = v(&["STOP", "</s>"]);
    assert_eq!(find_stop(b"x</s>yz STOP", &stops), Some(b("STOP")));
}

#[test]
fn contains_stop_suffix_cases() {
    let stops = v(&["<end>"]);

    assert!(contains_stop_suffix(b"foo<", &stops));
    assert!(contains_stop_suffix(b"foo<en", &stops));
    assert!(!contains_stop_suffix(b"foobar", &stops));
    assert!(!contains_stop_suffix(b"foo", &v(&[])));
}

#[test]
fn truncate_stop_cases() {
    let (got, trunc) = truncate_stop(&v(&["ab", "cd"]), b"bc");
    assert_eq!(got, v(&["a"]));
    assert!(trunc);

    let (got, trunc) = truncate_stop(&v(&["ab", "cd"]), b"cd");
    assert_eq!(got, v(&["ab"]));
    assert!(!trunc);

    let (got, trunc) = truncate_stop(&v(&["ab", "cd"]), b"zz");
    assert_eq!(got, v(&["ab", "cd"]));
    assert!(!trunc);
}

#[test]
fn incomplete_unicode_cases() {
    assert!(!incomplete_unicode(b"hello"));
    assert!(!incomplete_unicode("héllo".as_bytes()));

    assert!(incomplete_unicode(&[b'h', 0xC3]));

    assert!(incomplete_unicode(&[0xE2, 0x82]));
}

#[test]
fn incomplete_unicode_complete_four_byte() {
    assert!(!incomplete_unicode("a😀".as_bytes()));
    assert!(incomplete_unicode(&[b'a', 0xF0, 0x9F, 0x98]));
}

#[test]
fn dispatch_accumulates_and_stops_at_stop_sequence() {
    let mut seen: Vec<Vec<u8>> = Vec::new();
    let text = {
        let mut d = StreamDispatch::new(v(&["\n"]), |e: &[u8]| {
            seen.push(e.to_vec());
            true
        });
        assert!(d.dispatch(b"Paris"));
        assert!(!d.dispatch(b" is.\nNext"));
        assert!(!d.dispatch(b"ignored"));
        d.finish()
    };
    assert_eq!(text, b("Paris is."));
    assert_eq!(seen, v(&["Paris", " is."]));
}

#[test]
fn dispatch_callback_decline_stops_generation() {
    let mut calls = 0usize;
    let text = {
        let mut d = StreamDispatch::new(vec![], |_: &[u8]| {
            calls += 1;
            calls < 2
        });
        assert!(d.dispatch(b"a"));
        assert!(!d.dispatch(b"b"));
        assert!(!d.dispatch(b"c"));
        d.finish()
    };
    assert_eq!(calls, 2);
    assert_eq!(text, b("ab"));
}

#[test]
fn dispatch_finish_forwards_held_text() {
    let mut seen: Vec<Vec<u8>> = Vec::new();
    let text = {
        let mut d = StreamDispatch::new(v(&["<end>"]), |e: &[u8]| {
            seen.push(e.to_vec());
            true
        });
        assert!(d.dispatch(b"ok"));
        assert!(d.dispatch(b"<e"));
        d.finish()
    };
    assert_eq!(text, b("ok<e"));
    assert_eq!(seen, v(&["ok", "<e"]));
    assert_eq!(seen.concat(), text);
}

#[test]
fn dispatch_finish_after_stop_forwards_nothing_more() {
    let mut seen: Vec<Vec<u8>> = Vec::new();
    let text = {
        let mut d = StreamDispatch::new(v(&["<end>"]), |e: &[u8]| {
            seen.push(e.to_vec());
            true
        });
        assert!(!d.dispatch(b"ok<end>"));
        d.finish()
    };
    assert_eq!(text, b("ok"));
    assert_eq!(seen, v(&["ok"]));
}

#[test]
fn filter_emitted_text_never_holds_a_stop() {
    let mut f = Filter::new(v(&["<end>"]));
    let mut emitted = Vec::new();
    for p in ["ab<", "x", "<e", "n", "q<en"] {
        let (e, s) = f.push(p.as_bytes());
        assert!(!s);
        emitted.extend_from_slice(&e);
    }
    assert_eq!(emitted, b("ab<x"));
    assert!(!emitted.windows(5).any(|w| w == b"<end>"));
    let (e, s) = f.push(b"d>tail");
    assert!(s);
    assert_eq!(e, b("<enq"));
}

#[test]
fn sink_run_returns_every_piece_without_a_stop() {
    let pieces = ["ab<", "en", "d? ", "x", "<e"];
    let mut log: Vec<Vec<u8>> = Vec::new();
    let out = {
        let mut s = Sink::new(
            v(&["<end>"]),
            Some(|e: &[u8]| {
                log.push(e.to_vec());
                true
            }),
        );
        for p in pieces {
            assert!(s.on_token(p.as_bytes()));
        }
        s.finish()
    };
    assert_eq!(out, b("ab<end? x<e"));
    assert_eq!(log.concat(), out);
}
