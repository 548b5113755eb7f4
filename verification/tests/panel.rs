use peck::pointer::{BTN_LEFT, BTN_RIGHT};
use peck::ui::matching::LONGEST_NEEDLE;
use peck::ui::panel::{
    find_typed_out, list_labels, rank_matches, CoreOutcome, Effect, Event, Item, PanelCore,
    PanelKey, SCROLL_STEP,
};

fn item(label: &str, center: (i32, i32), text: &str) -> Item {
    Item {
        label: label.into(),
        center,
        text: text.into(),
    }
}

/// Three targets with single-char labels, priority order.
fn panel() -> PanelCore {
    PanelCore::new(vec![
        item("s", (10, 10), "Save document Button"),
        item("a", (20, 20), "Settings Button"),
        item("d", (30, 30), "Close Tab Button"),
    ])
}

#[test]
fn empty_query_selects_first_by_priority() {
    let core = panel();
    assert_eq!(core.selected(), Some(0));
    assert!(core.label_matches.is_empty());
    assert_eq!(core.fuzzy_matches, [0, 1, 2]);
}

#[test]
fn typed_out_label_engages_hint_match() {
    let mut core = panel();
    // "a" fuzzy-matches several items but types out label "a" exactly.
    core.on_event(Event::Query("a".into()));
    assert_eq!(core.hint_match, Some(1));
    assert_eq!(core.selected(), Some(1));
    // The matched hint sits in its own section, not the fuzzy list.
    assert_eq!(core.label_matches, [1]);
    assert!(!core.fuzzy_matches.contains(&1));
}

#[test]
fn label_prefix_lists_hints_without_engaging_the_match() {
    let mut core = PanelCore::new(vec![
        item("sa", (10, 10), "Save document Button"),
        item("sd", (20, 20), "Settings Button"),
        item("fa", (30, 30), "Close Tab Button"),
    ]);
    core.on_event(Event::Query("s".into()));
    // Both "sa" and "sd" are reachable hints: own section, above fuzzy.
    assert_eq!(core.label_matches, [0, 1]);
    assert_eq!(core.hint_match, None, "shortcode not typed out yet");
    // The cursor still selects the first listed hint (green outline).
    assert_eq!(core.selected(), Some(0));
    // Typing the label out engages the hint (cyan chip).
    core.on_event(Event::Query("sd".into()));
    assert_eq!(core.hint_match, Some(1));
    assert_eq!(core.selected(), Some(1));
}

#[test]
fn fuzzy_ranks_when_no_hint_matches() {
    let mut core = panel();
    core.on_event(Event::Query("sett".into()));
    assert!(core.label_matches.is_empty());
    assert_eq!(core.selected(), Some(1), "Settings should rank first");
    assert!(!core.fuzzy_matches.is_empty());
}

#[test]
fn arrows_move_cursor_and_override_hint_match() {
    let mut core = panel();
    core.on_event(Event::Query("a".into()));
    assert_eq!(core.selected(), Some(1)); // hint match
    let fx = core.on_event(Event::Key(PanelKey::Down));
    assert_eq!(fx, vec![Effect::Redraw]);
    // Cursor moved past the one-entry hint section into the fuzzy list.
    assert_eq!(core.hint_match, None);
    assert_eq!(core.selected(), core.fuzzy_matches.first().copied());
}

#[test]
fn return_clicks_and_arms_grace() {
    let mut core = panel();
    let fx = core.on_event(Event::Key(PanelKey::Return { ctrl: false }));
    assert_eq!(
        fx,
        vec![
            Effect::Click {
                button: BTN_LEFT,
                at: (10, 10)
            },
            Effect::ArmGrace,
            Effect::Redraw,
        ]
    );
    // Grace expiry finishes as a single click.
    let fx = core.on_event(Event::GraceElapsed);
    assert_eq!(
        fx,
        vec![Effect::Finish(CoreOutcome::Clicked {
            index: 0,
            at: (10, 10),
            double: false
        })]
    );
}

#[test]
fn second_return_in_grace_double_clicks() {
    let mut core = panel();
    core.on_event(Event::Key(PanelKey::Return { ctrl: false }));
    let fx = core.on_event(Event::Key(PanelKey::Return { ctrl: false }));
    assert_eq!(
        fx,
        vec![
            Effect::Click {
                button: BTN_LEFT,
                at: (10, 10)
            },
            Effect::Finish(CoreOutcome::Clicked {
                index: 0,
                at: (10, 10),
                double: true
            }),
        ]
    );
}

#[test]
fn grace_ignores_other_input_and_stale_timer_is_noop() {
    let mut graced = panel();
    graced.on_event(Event::Key(PanelKey::Return { ctrl: false }));
    assert_eq!(graced.on_event(Event::Key(PanelKey::Down)), vec![]);
    assert_eq!(graced.on_event(Event::Query("x".into())), vec![]);
    // A stale GraceElapsed when no grace is pending does nothing.
    let mut idle = panel();
    assert_eq!(idle.on_event(Event::GraceElapsed), vec![]);
}

#[test]
fn ctrl_return_right_clicks_and_finishes() {
    let mut core = panel();
    let fx = core.on_event(Event::Key(PanelKey::Return { ctrl: true }));
    assert_eq!(
        fx,
        vec![
            Effect::Click {
                button: BTN_RIGHT,
                at: (10, 10)
            },
            Effect::Finish(CoreOutcome::RightClicked {
                index: 0,
                at: (10, 10)
            }),
        ]
    );
}

#[test]
fn ctrl_tap_warps_without_finishing() {
    let mut core = panel();
    assert_eq!(core.on_event(Event::Key(PanelKey::CtrlPressed)), vec![]);
    let fx = core.on_event(Event::Key(PanelKey::CtrlReleased));
    assert_eq!(fx, vec![Effect::Warp(10, 10)]);
    // Panel still open; dismissing reports the warp.
    let fx = core.on_event(Event::Key(PanelKey::Escape));
    assert_eq!(
        fx,
        vec![Effect::Finish(CoreOutcome::Dismissed {
            scrolls: 0,
            warped: true
        })]
    );
}

#[test]
fn ctrl_chord_does_not_warp() {
    let mut core = panel();
    core.on_event(Event::Key(PanelKey::CtrlPressed));
    core.on_event(Event::Key(PanelKey::ScrollDown)); // Ctrl+J
    let fx = core.on_event(Event::Key(PanelKey::CtrlReleased));
    assert!(
        !fx.iter().any(|e| matches!(e, Effect::Warp(..))),
        "a Ctrl chord must not count as a tap"
    );
}

#[test]
fn scroll_keys_emit_scrolls_and_are_counted() {
    let mut core = panel();
    // The first scroll also clears the now-invalid hints (Redraw).
    let fx = core.on_event(Event::Key(PanelKey::ScrollDown));
    assert_eq!(
        fx,
        vec![
            Effect::Scroll {
                horizontal: false,
                amount: SCROLL_STEP
            },
            Effect::Redraw,
        ]
    );
    let fx = core.on_event(Event::Key(PanelKey::ScrollLeft));
    assert_eq!(
        fx,
        vec![Effect::Scroll {
            horizontal: true,
            amount: -SCROLL_STEP
        }]
    );
    let fx = core.on_event(Event::Key(PanelKey::Escape));
    assert_eq!(
        fx,
        vec![Effect::Finish(CoreOutcome::Dismissed {
            scrolls: 2,
            warped: false
        })]
    );
}

#[test]
fn scrolling_invalidates_hints_until_rescan() {
    let mut core = panel();
    core.on_event(Event::Key(PanelKey::CtrlPressed));
    core.on_event(Event::Key(PanelKey::ScrollDown));
    // Stale: nothing listed, nothing selectable, typing changes nothing.
    assert!(core.stale);
    assert!(core.label_matches.is_empty() && core.fuzzy_matches.is_empty());
    assert_eq!(core.selected(), None);
    core.on_event(Event::Query("a".into()));
    assert_eq!(core.selected(), None, "stale items must not be matchable");
    assert_eq!(
        core.on_event(Event::Key(PanelKey::Return { ctrl: false })),
        vec![]
    );
    // Releasing Ctrl asks for a re-scan instead of warping.
    let fx = core.on_event(Event::Key(PanelKey::CtrlReleased));
    assert_eq!(fx, vec![Effect::Redraw, Effect::Refetch]);
}

#[test]
fn new_hints_replace_stale_items_and_reapply_the_query() {
    let mut core = panel();
    core.on_event(Event::Query("sett".into()));
    core.on_event(Event::Key(PanelKey::CtrlPressed));
    core.on_event(Event::Key(PanelKey::ScrollDown));
    core.on_event(Event::Key(PanelKey::CtrlReleased));
    // Fresh scan arrives (different positions, new element first).
    let fx = core.on_event(Event::NewHints(vec![
        item("s", (5, 500), "Better Settings Button"),
        item("a", (15, 515), "Save document Button"),
    ]));
    assert_eq!(fx, vec![Effect::Redraw]);
    assert!(!core.stale);
    // The standing query "sett" is reapplied to the new items.
    assert_eq!(core.selected(), Some(0));
    assert_eq!(core.items[0].center, (5, 500));
}

#[test]
fn escape_clears_query_first_then_dismisses() {
    let mut core = panel();
    core.on_event(Event::Query("xyz".into()));
    assert_eq!(
        core.on_event(Event::Key(PanelKey::Escape)),
        vec![Effect::ClearQuery]
    );
    // The entry round-trips the clear as an empty Query event.
    core.on_event(Event::Query(String::new()));
    assert_eq!(
        core.on_event(Event::Key(PanelKey::Escape)),
        vec![Effect::Finish(CoreOutcome::Dismissed {
            scrolls: 0,
            warped: false
        })]
    );
}

#[test]
fn empty_panel_scrolls_but_never_clicks() {
    let mut core = PanelCore::new(Vec::new());
    assert_eq!(core.selected(), None);
    assert_eq!(
        core.on_event(Event::Key(PanelKey::Return { ctrl: false })),
        vec![]
    );
    let fx = core.on_event(Event::Key(PanelKey::ScrollDown));
    assert!(matches!(
        fx.as_slice(),
        [Effect::Scroll { .. }, Effect::Redraw]
    ));
}


#[test]
fn down_and_up_stay_on_the_list() {
    let mut core = panel();
    assert_eq!(core.on_event(Event::Key(PanelKey::Up)), vec![]);
    assert_eq!(core.on_event(Event::Key(PanelKey::Down)), vec![Effect::Redraw]);
    assert_eq!(core.on_event(Event::Key(PanelKey::Down)), vec![Effect::Redraw]);
    assert_eq!(core.selected(), Some(2));
    assert_eq!(core.on_event(Event::Key(PanelKey::Down)), vec![]);
    assert_eq!(core.on_event(Event::Key(PanelKey::Up)), vec![Effect::Redraw]);
    assert_eq!(core.selected(), Some(1));
}

#[test]
fn queries_are_lowercased_at_intake() {
    let mut core = panel();
    core.on_event(Event::Query("A".into()));
    assert_eq!(core.query, "a");
    assert_eq!(core.hint_match, Some(1));
    // Beyond ASCII too: the capital sigma at the end of a word.
    core.on_event(Event::Query("ΟΔΟΣ".into()));
    assert_eq!(core.query, "οδος");
}

#[test]
fn better_matches_come_first_and_equals_keep_their_order() {
    let mut core = PanelCore::new(vec![
        item("q", (0, 0), "s-e-t-t"),
        item("w", (1, 1), "sett"),
        item("e", (2, 2), "nothing"),
        item("r", (3, 3), "sett"),
    ]);
    core.on_event(Event::Query("sett".into()));
    assert_eq!(core.fuzzy_matches, [1, 3, 0]);
}

#[test]
fn scores_are_those_of_the_matcher() {
    let texts = ["foo/bar", "bar/foo", "foobar", "quux"];
    let items: Vec<Item> = texts.iter().map(|t| item("zz", (0, 0), t)).collect();
    let mut core = PanelCore::new(items);
    core.on_event(Event::Query("foo bar".into()));
    let pattern = nucleo_matcher::pattern::Pattern::parse(
        "foo bar",
        nucleo_matcher::pattern::CaseMatching::Ignore,
        nucleo_matcher::pattern::Normalization::Smart,
    );
    let mut matcher = nucleo_matcher::Matcher::new(nucleo_matcher::Config::DEFAULT);
    let mut expected: Vec<(u32, usize)> = Vec::new();
    for (i, t) in texts.iter().enumerate() {
        let mut buf = Vec::new();
        if let Some(s) = pattern.score(nucleo_matcher::Utf32Str::new(t, &mut buf), &mut matcher) {
            expected.push((s, i));
        }
    }
    expected.sort_by(|a, b| b.0.cmp(&a.0).then(a.1.cmp(&b.1)));
    let order: Vec<usize> = expected.iter().map(|e| e.1).collect();
    assert_eq!(core.fuzzy_matches, order);
    assert_eq!(core.fuzzy_matches, [0, 1, 2]);
}

#[test]
fn grace_survives_new_hints() {
    let mut core = panel();
    core.on_event(Event::Key(PanelKey::Return { ctrl: false }));
    assert_eq!(core.on_event(Event::NewHints(Vec::new())), vec![]);
    assert_eq!(core.items.len(), 3);
    assert_eq!(
        core.on_event(Event::Key(PanelKey::Escape)),
        vec![Effect::Finish(CoreOutcome::Clicked { index: 0, at: (10, 10), double: false })]
    );
}

#[test]
fn all_scroll_keys_have_their_direction() {
    let mut core = panel();
    core.on_event(Event::Key(PanelKey::ScrollUp));
    let cases = [
        (PanelKey::ScrollUp, false, -15),
        (PanelKey::ScrollDown, false, 15),
        (PanelKey::ScrollLeft, true, -15),
        (PanelKey::ScrollRight, true, 15),
    ];
    for (key, horizontal, amount) in cases {
        assert_eq!(core.on_event(Event::Key(key)), vec![Effect::Scroll { horizontal, amount }]);
    }
    assert_eq!(core.scrolls, 5);
}

#[test]
fn events_beyond_the_limits_are_refused() {
    let long: String = "x".repeat(LONGEST_NEEDLE + 1);
    let mut core = PanelCore::new(vec![item("zz", (0, 0), &long), item("s", (1, 1), "Save")]);
    assert_eq!(core.offer(Event::Query(long.clone())), None);
    assert_eq!(core.query, "");
    assert_eq!(core.fuzzy_matches, [0, 1]);
    // The same on fresh items, which are not taken over.
    let mut core = panel();
    assert_eq!(core.offer(Event::Query(long.clone())), Some(vec![Effect::Redraw]));
    assert_eq!(core.offer(Event::NewHints(vec![item("zz", (0, 0), &long)])), None);
    assert_eq!(core.items.len(), 3);
    core.scrolls = u32::MAX;
    assert_eq!(core.offer(Event::Key(PanelKey::ScrollDown)), None);
    assert!(!core.stale);
}

#[test]
fn long_queries_are_taken_where_the_texts_are_short() {
    let mut core = panel();
    let long: String = "x".repeat(LONGEST_NEEDLE + 1);
    assert_eq!(core.offer(Event::Query(long.clone())), Some(vec![Effect::Redraw]));
    assert_eq!(core.query, long);
    assert!(core.label_matches.is_empty() && core.fuzzy_matches.is_empty());
    let slashes: String = "\\".repeat(2 * LONGEST_NEEDLE);
    assert_eq!(core.offer(Event::Query(slashes)), Some(vec![Effect::Redraw]));
    assert_eq!(core.offer(Event::Query(String::new())), Some(vec![Effect::Redraw]));
    assert_eq!(core.fuzzy_matches, [0, 1, 2]);
    // Many short words are no long word, whatever the text.
    let text: String = "ab ".repeat(3000);
    let query: String = "ab ".repeat(3000);
    let mut core = PanelCore::new(vec![item("zz", (0, 0), &text)]);
    assert_eq!(core.offer(Event::Query(query)), Some(vec![Effect::Redraw]));
    assert_eq!(core.fuzzy_matches, [0]);
}

#[test]
fn needles_at_the_limit_are_scored() {
    let text: String = "ab ".repeat(3000);
    let query: String = "ab ".repeat(LONGEST_NEEDLE / 3);
    let mut core = PanelCore::new(vec![item("zz", (0, 0), &text)]);
    assert_eq!(core.offer(Event::Query(query)), Some(vec![Effect::Redraw]));
    let query: String = "ab".repeat(LONGEST_NEEDLE / 2);
    let text: String = "ab".repeat(3000);
    let mut core = PanelCore::new(vec![item("zz", (0, 0), &text)]);
    assert_eq!(core.offer(Event::Query(query)), Some(vec![Effect::Redraw]));
    assert_eq!(core.fuzzy_matches, [0]);
    // A text at the limit, for a longer query: every character can match.
    let text: String = "a-".repeat(LONGEST_NEEDLE / 2);
    let query: String = "a-".repeat(LONGEST_NEEDLE / 2 + 1);
    let mut core = PanelCore::new(vec![item("zz", (0, 0), &text)]);
    assert_eq!(core.offer(Event::Query(query)), Some(vec![Effect::Redraw]));
    assert!(core.fuzzy_matches.is_empty());
    assert_eq!(core.offer(Event::Query(text)), Some(vec![Effect::Redraw]));
    assert_eq!(core.fuzzy_matches, [0]);
}

#[test]
fn letters_that_the_matcher_takes_for_two_are_refused() {
    let mut core = PanelCore::new(vec![item("zz", (0, 0), "ſésé")]);
    assert_eq!(core.offer(Event::Query("sé".into())), None);
    assert_eq!(core.query, "");
    // Without the long s, without the accent, and with another beginning.
    assert_eq!(core.offer(Event::Query("se".into())), Some(vec![Effect::Redraw]));
    assert_eq!(core.fuzzy_matches, [0]);
    assert_eq!(core.offer(Event::Query("és".into())), Some(vec![Effect::Redraw]));
    assert_eq!(core.fuzzy_matches, [0]);
    assert_eq!(core.offer(Event::NewHints(vec![item("zz", (0, 0), "sésé")])), Some(vec![Effect::Redraw]));
    assert_eq!(core.offer(Event::Query("sé".into())), Some(vec![Effect::Redraw]));
    assert_eq!(core.fuzzy_matches, [0]);
    // Greek is never normalized: a final sigma is no obstacle.
    let mut core = PanelCore::new(vec![item("zz", (0, 0), "Ὁδὸς Σοφίας")]);
    assert_eq!(core.offer(Event::Query("ΣΟΦΙΑΣ".into())), Some(vec![Effect::Redraw]));
    assert_eq!(core.offer(Event::Query("σοφ".into())), Some(vec![Effect::Redraw]));
    assert_eq!(core.fuzzy_matches, [0]);
}

#[test]
fn escape_reports_the_whole_interaction() {
    let mut core = panel();
    core.on_event(Event::Key(PanelKey::CtrlPressed));
    core.on_event(Event::Key(PanelKey::CtrlReleased));
    core.on_event(Event::Key(PanelKey::ScrollDown));
    core.on_event(Event::NewHints(vec![item("s", (1, 1), "Save")]));
    core.on_event(Event::Key(PanelKey::ScrollUp));
    core.on_event(Event::Query("Sa".into()));
    assert_eq!(core.on_event(Event::Key(PanelKey::Escape)), vec![Effect::ClearQuery]);
    assert_eq!((core.query.as_str(), core.scrolls, core.warped), ("sa", 2, true));
    core.on_event(Event::Query(String::new()));
    assert_eq!(
        core.on_event(Event::Key(PanelKey::Escape)),
        vec![Effect::Finish(CoreOutcome::Dismissed { scrolls: 2, warped: true })]
    );
}

#[test]
fn scores_rank_the_matches() {
    let scores = vec![Some(3), None, Some(9), Some(3), Some(u32::MAX), None];
    assert_eq!(rank_matches(&scores), [4, 2, 0, 3]);
    assert!(rank_matches(&vec![None, None]).is_empty());
    assert_eq!(rank_matches(&vec![Some(0), Some(0)]), [0, 1]);
}

#[test]
fn labels_are_listed_by_their_beginning() {
    let items = vec![
        item("sa", (0, 0), ""),
        item("s", (0, 0), ""),
        item("f", (0, 0), ""),
        item("s", (0, 0), ""),
    ];
    let hits = list_labels(&items, "s");
    assert_eq!(hits, [0, 1, 3]);
    assert_eq!(find_typed_out(&items, &"s".to_string(), &hits), Some(1));
    assert_eq!(find_typed_out(&items, &"x".to_string(), &hits), None);
    let mut core = PanelCore::new(items);
    core.set_query("sa".to_string());
    assert_eq!((core.hint_match, core.cursor), (Some(0), 0));
}

#[test]
fn a_scrolled_panel_only_waits() {
    let mut core = panel();
    core.on_event(Event::Key(PanelKey::ScrollDown));
    for _ in 0..2 {
        assert_eq!(core.on_event(Event::Key(PanelKey::Return { ctrl: false })), vec![]);
        assert_eq!(core.on_event(Event::Key(PanelKey::Return { ctrl: true })), vec![]);
        assert_eq!(core.on_event(Event::Key(PanelKey::Up)), vec![]);
        assert_eq!(core.on_event(Event::Key(PanelKey::Down)), vec![]);
        assert_eq!(core.on_event(Event::Query("s".into())), vec![Effect::Redraw]);
        assert_eq!(core.on_event(Event::Key(PanelKey::CtrlPressed)), vec![]);
        let released = core.on_event(Event::Key(PanelKey::CtrlReleased));
        assert_eq!(released, vec![Effect::Redraw, Effect::Refetch]);
        assert_eq!(core.selected(), None);
    }
}
