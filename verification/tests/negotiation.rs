use kutil_http::encoding::{encodings_by_decoding_cost, encodings_by_preference, Encoding};
use kutil_http::media_type::{MediaTypeSegment, MediaTypeSelector};
use kutil_http::preferences::{Preference, Preferences, Weight};
use kutil_http::selector::{IsSpecific, Selector};

#[test]
fn weight_parse_values() {
    assert_eq!(Weight::parse("q=1"), Some(Weight::new(1000)));
    assert_eq!(Weight::parse("q=0"), Some(Weight::new(0)));
    assert_eq!(Weight::parse("q=0.5"), Some(Weight::new(500)));
    assert_eq!(Weight::parse("Q=0.25"), Some(Weight::new(250)));
    assert_eq!(Weight::parse("q=0.125"), Some(Weight::new(125)));
    assert_eq!(Weight::parse(" q=0.8 "), Some(Weight::new(800)));
    assert_eq!(Weight::parse("q=1.000"), Some(Weight::new(1000)));
    assert_eq!(Weight::parse("q=1."), Some(Weight::new(1000)));
}

#[test]
fn weight_parse_rejects() {
    assert_eq!(Weight::parse("q=1.5"), None);
    assert_eq!(Weight::parse("q=2"), None);
    assert_eq!(Weight::parse("q=0.1234"), None);
    assert_eq!(Weight::parse("x=0.5"), None);
    assert_eq!(Weight::parse("q="), None);
    assert_eq!(Weight::parse("q=0.a"), None);
    assert_eq!(Weight::parse(""), None);
}

#[test]
fn weight_text_values() {
    assert_eq!(Weight::new(1000).to_string(), "q=1");
    assert_eq!(Weight::new(0).to_string(), "q=0");
    assert_eq!(Weight::new(500).to_string(), "q=0.5");
    assert_eq!(Weight::new(250).to_string(), "q=0.25");
    assert_eq!(Weight::new(125).to_string(), "q=0.125");
    assert_eq!(Weight::new(5).to_string(), "q=0.005");
    assert_eq!(Weight::new(50).to_string(), "q=0.05");
    assert_eq!(Weight::new(205).to_string(), "q=0.205");
    assert_eq!(Weight::new(10).to_string(), "q=0.01");
    assert_eq!(Weight::max(), Weight::new(1000));
}

#[test]
fn weight_round_trip() {
    for w in [0u16, 100, 120, 125, 500, 999, 1000] {
        let text = Weight::new(w).to_string();
        assert_eq!(Weight::parse(&text), Some(Weight::new(w)));
    }
}

#[test]
fn preference_text() {
    let preference = Preference::new(Selector::Specific(Encoding::GZip), Weight::new(500));
    assert_eq!(preference.to_string(), "gzip;q=0.5");
    let preference = Preference::new(Selector::<Encoding>::Any, Weight::max());
    assert_eq!(preference.to_string(), "*");
}

#[test]
fn preferences_parse_sorts_stably() {
    let values = vec!["gzip;q=0.5, br, deflate;q=0.5", "zstd;q=0.9, bogus"];
    let preferences = Preferences::<Encoding>::parse(&values);
    let order: Vec<(Selector<Encoding>, Weight)> =
        preferences.0.iter().map(|p| (p.selector.clone(), p.weight)).collect();
    assert_eq!(
        order,
        vec![
            (Selector::Specific(Encoding::Brotli), Weight::new(1000)),
            (Selector::Specific(Encoding::Zstandard), Weight::new(900)),
            (Selector::Specific(Encoding::GZip), Weight::new(500)),
            (Selector::Specific(Encoding::Deflate), Weight::new(500)),
        ]
    );
}

#[test]
fn preferences_sorted_keeps_ties_in_order() {
    let preferences = Preferences(vec![
        Preference::new(Selector::Specific(Encoding::GZip), Weight::new(100)),
        Preference::new(Selector::Specific(Encoding::Deflate), Weight::new(700)),
        Preference::new(Selector::Specific(Encoding::Brotli), Weight::new(100)),
        Preference::new(Selector::Specific(Encoding::Zstandard), Weight::new(700)),
    ])
    .sorted();
    let order: Vec<Selector<Encoding>> = preferences.0.iter().map(|p| p.selector.clone()).collect();
    assert_eq!(
        order,
        vec![
            Selector::Specific(Encoding::Deflate),
            Selector::Specific(Encoding::Zstandard),
            Selector::Specific(Encoding::GZip),
            Selector::Specific(Encoding::Brotli),
        ]
    );
}

#[test]
fn preferences_best_picks_highest_weight() {
    let values = vec!["gzip;q=0.5, br"];
    let preferences = Preferences::<Encoding>::parse(&values);
    let allowances = [Encoding::GZip, Encoding::Brotli];
    assert_eq!(preferences.best(&allowances), Some(&Encoding::Brotli));
}

#[test]
fn preferences_best_ties_go_by_allowance_order() {
    let values = vec!["gzip, br"];
    let preferences = Preferences::<Encoding>::parse(&values);
    assert_eq!(preferences.best(&[Encoding::Brotli, Encoding::GZip]), Some(&Encoding::Brotli));
    assert_eq!(preferences.best(&[Encoding::GZip, Encoding::Brotli]), Some(&Encoding::GZip));
}

#[test]
fn preferences_best_is_first_allowance_of_top_weight() {
    let values = vec!["zstd;q=0.9, gzip;q=0.5, br;q=0.8, deflate;q=0.8"];
    let preferences = Preferences::<Encoding>::parse(&values);
    let allowances = [Encoding::GZip, Encoding::Deflate, Encoding::Brotli];
    assert_eq!(preferences.best(&allowances), Some(&Encoding::Deflate));
}

#[test]
fn preferences_best_any() {
    let values = vec!["*;q=0.1"];
    let preferences = Preferences::<Encoding>::parse(&values);
    assert_eq!(preferences.best(&[Encoding::Zstandard, Encoding::GZip]), Some(&Encoding::Zstandard));
}

#[test]
fn preferences_best_none() {
    let values = vec!["gzip"];
    let preferences = Preferences::<Encoding>::parse(&values);
    assert_eq!(preferences.best(&[Encoding::Brotli]), None);
    assert_eq!(preferences.best_or_first(&[Encoding::Brotli, Encoding::Deflate]), &Encoding::Brotli);
}

#[test]
fn preferences_best_or_first_found() {
    let values = vec!["deflate;q=0.3, zstd;q=0.2"];
    let preferences = Preferences::<Encoding>::parse(&values);
    assert_eq!(preferences.best_or_first(&[Encoding::Zstandard, Encoding::Deflate]), &Encoding::Deflate);
}

#[test]
fn selector_parse_and_select() {
    assert_eq!(Selector::<Encoding>::parse("*"), Some(Selector::Any));
    assert_eq!(Selector::<Encoding>::parse("gzip"), Some(Selector::Specific(Encoding::GZip)));
    assert_eq!(Selector::<Encoding>::parse("lzma"), None);
    let candidates = [Encoding::GZip, Encoding::Brotli];
    assert_eq!(Selector::<Encoding>::Any.select(&candidates), vec![&Encoding::GZip, &Encoding::Brotli]);
    assert_eq!(Selector::Specific(Encoding::Brotli).select(&candidates), vec![&Encoding::Brotli]);
    assert!(Selector::Specific(Encoding::Zstandard).select(&candidates).is_empty());
    assert!(Selector::Specific(Encoding::GZip).is_specific());
    assert!(!Selector::<Encoding>::Any.is_specific());
    assert_eq!(Selector::Specific(Encoding::GZip).to_string(), "gzip");
    assert_eq!(Selector::<Encoding>::Any.to_string(), "*");
}

#[test]
fn encoding_tokens() {
    assert_eq!(Encoding::parse("gzip"), Some(Encoding::GZip));
    assert_eq!(Encoding::parse("GZIP"), Some(Encoding::GZip));
    assert_eq!(Encoding::parse("br"), Some(Encoding::Brotli));
    assert_eq!(Encoding::parse("Deflate"), Some(Encoding::Deflate));
    assert_eq!(Encoding::parse("zstd"), Some(Encoding::Zstandard));
    assert_eq!(Encoding::parse("identity"), Some(Encoding::Identity));
    assert_eq!(Encoding::parse("compress"), None);
    for encoding in [Encoding::Identity, Encoding::Brotli, Encoding::Deflate, Encoding::GZip, Encoding::Zstandard] {
        assert_eq!(Encoding::parse(&encoding.to_string()), Some(encoding));
    }
}

#[test]
fn encoding_orders() {
    assert_eq!(
        encodings_by_preference(),
        vec![Encoding::Brotli, Encoding::GZip, Encoding::Deflate, Encoding::Zstandard]
    );
    assert_eq!(encodings_by_decoding_cost().len(), 4);
    assert!(!encodings_by_decoding_cost().contains(&Encoding::Identity));
}

#[test]
fn media_type_preferences() {
    let values = vec!["text/html;q=0.9, application/json, */*;q=0.1"];
    let preferences = Preferences::<MediaTypeSelector>::parse(&values);
    let allowances =
        [MediaTypeSelector::new_fostered("text", "html"), MediaTypeSelector::new_fostered("application", "json")];
    assert_eq!(preferences.best(&allowances), Some(&allowances[1]));
    // `*/*` is a selection of its own, not a wildcard over allowances
    let only_text = [MediaTypeSelector::new_fostered("text", "plain")];
    assert_eq!(preferences.best(&only_text), None);
    let any = [MediaTypeSelector::new_fostered("text", "plain"), MediaTypeSelector::any()];
    assert_eq!(preferences.best(&any), Some(&any[1]));
    let segment = MediaTypeSegment::new_owned("text".to_string());
    assert_eq!(segment, MediaTypeSegment::new_fostered("text"));
}

#[test]
fn preferences_of_plain_text() {
    let values = vec!["text/html;q=0.5, application/json"];
    let preferences = Preferences::<String>::parse(&values);
    let allowances = ["text/html".to_string(), "application/json".to_string()];
    assert_eq!(preferences.best(&allowances), Some(&"application/json".to_string()));
    let none = ["text/plain".to_string()];
    assert_eq!(preferences.best(&none), None);
}

#[test]
fn weight_text_round_trip_for_every_q_value() {
    for n in 0..=1000u16 {
        let w = Weight::new(n);
        assert_eq!(Weight::parse(&w.to_string()), Some(w));
    }
}
