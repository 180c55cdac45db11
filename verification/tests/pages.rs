use lazycard::color_names::{color_text, parse_color_text};
use lazycard::queries::cards_with_tags_query;
use lazycard::cards_page::{CardsPage, CardsStep, TagFilter};
use lazycard::editor_page::{CardEditorPage, EditorStep, TagState, TagToggles};
use lazycard::keys::Key;
use lazycard::logs_page::{LogsAction, LogsPage};
use lazycard::nav::{app_key_action, Action, CardsParam, Hook, Log, Mode, Navigation, PageState, Route};
use lazycard::review::{ReviewPage, ReviewState, ReviewStep};
use lazycard::search_page::{SearchPage, SearchStep};
use lazycard::settings::{Settings, ThemeMode};
use lazycard::settings_page::{next_setting, previous_setting, ColorSlot, Setting, SettingsPage, SettingsStep};
use lazycard::style::Color;
use lazycard::tags_page::{TagsPage, TagsState, TagsStep};

fn kind(a: &Option<Action>) -> &'static str {
    match a {
        None => "page",
        Some(Action::Quit) => "quit",
        Some(Action::NextRoute) => "next",
        Some(Action::PreviousRoute) => "previous",
        Some(Action::ToggleSearch) => "search",
        Some(Action::ToggleLogs) => "logs",
        Some(_) => "other",
    }
}

#[test]
fn routes_go_round_the_bar() {
    let mut r = Route::default_route();
    let mut seen = Vec::new();
    for _ in 0..5 {
        seen.push(r);
        r = r.next();
    }
    assert_eq!(r, Route::Review);
    assert_eq!(seen, vec![Route::Review, Route::Editor(None), Route::Cards(None), Route::Tags, Route::Settings]);
    assert_eq!(Route::Cards(Some(CardsParam::Card(3))).prev(), Route::Editor(None));
    assert_eq!(Route::Review.prev().next(), Route::Review);
    assert!(Route::Editor(Some(1)).same_page(Route::Editor(None)));
    assert!(!Route::Tags.same_page(Route::Settings));
}

#[test]
fn search_over_a_page_toggles() {
    let (mut n, hooks) = Navigation::new(Route::Tags);
    assert_eq!(hooks, vec![Hook::Enter(Route::Tags)]);
    assert_eq!(n.set_state(PageState::Search), vec![Hook::EnterSearch]);
    assert_eq!(n.mode, Mode::Search);
    assert_eq!(n.forward(), PageState::Search);
    assert!(!n.marks(Route::Tags));
    assert_eq!(n.set_state(PageState::Search), vec![Hook::ExitSearch]);
    assert_eq!(n, Navigation { route: Route::Tags, mode: Mode::Route });
    assert!(n.marks(Route::Tags));
    assert_eq!(n.set_state(PageState::Route(Route::Tags)), vec![]);
}

#[test]
fn changing_page_exits_then_enters() {
    let (mut n, _) = Navigation::new(Route::Review);
    n.set_state(PageState::Logs);
    let hooks = n.set_state(PageState::Route(Route::Cards(None)));
    assert_eq!(hooks, vec![Hook::ExitLogs, Hook::Exit(Route::Review), Hook::Enter(Route::Cards(None))]);
    let hooks = n.navigate(&Action::NextRoute);
    assert_eq!(hooks, vec![Hook::Exit(Route::Cards(None)), Hook::Enter(Route::Tags)]);
    let hooks = n.navigate(&Action::Render);
    assert!(hooks.is_empty());
    assert_eq!(n.route, Route::Tags);
}

#[test]
fn shared_keys() {
    assert_eq!(kind(&app_key_action(Key::Esc, false, true)), "quit");
    assert_eq!(kind(&app_key_action(Key::Tab, false, true)), "next");
    assert_eq!(kind(&app_key_action(Key::BackTab, false, true)), "previous");
    assert_eq!(kind(&app_key_action(Key::Char('f'), true, true)), "search");
    assert_eq!(kind(&app_key_action(Key::Char('f'), false, true)), "page");
    assert_eq!(kind(&app_key_action(Key::Char('l'), true, true)), "page");
    assert_eq!(kind(&app_key_action(Key::Char('l'), true, false)), "logs");
    assert_eq!(kind(&app_key_action(Key::Down, false, false)), "page");
}

#[test]
fn a_review_reveals_then_answers() {
    let mut r = ReviewPage::new();
    assert!(r.on_enter(2));
    r.show(Some((7, "front\n\n---\n\nback")));
    assert_eq!(r.state(), ReviewState::Review(7));
    assert!(!r.is_fully_revealed());
    assert_eq!(r.input(Key::Char('y')), ReviewStep::Ignored);
    assert_eq!(r.input(Key::Char(' ')), ReviewStep::Revealed);
    assert!(r.is_fully_revealed());
    assert_eq!(r.input(Key::Char(' ')), ReviewStep::Ignored);
    assert!(r.has_more_cards());
    assert_eq!(r.input(Key::Char('y')), ReviewStep::Answer { card: 7, success: true, fetch: true });
    assert_eq!(r.progress(), (1, 2));
    assert_eq!(r.excluded(), Some(7));
    assert_eq!(r.input(Key::Right), ReviewStep::Ignored);
    r.show(Some((8, "only")));
    assert!(r.is_fully_revealed());
    assert_eq!(r.input(Key::Char('n')), ReviewStep::Answer { card: 8, success: false, fetch: false });
    assert_eq!(r.state(), ReviewState::Done);
    assert_eq!(r.input(Key::Char('y')), ReviewStep::Ignored);
}

#[test]
fn a_review_without_due_cards() {
    let mut r = ReviewPage::new();
    assert!(!r.on_enter(0));
    assert_eq!(r.excluded(), None);
    r.show(None);
    assert_eq!(r.state(), ReviewState::Done);
    r.on_exit();
    assert_eq!(r.state(), ReviewState::Empty);
    assert_eq!(r.progress(), (0, 0));
}

#[test]
fn deleting_during_a_review() {
    let mut r = ReviewPage::new();
    r.on_enter(3);
    r.show(Some((1, "a")));
    assert!(r.has_more_cards());
    assert_eq!(r.input(Key::Right), ReviewStep::Skip(1));
    assert_eq!(r.input(Key::Delete), ReviewStep::Delete(1));
    assert_eq!(r.progress(), (0, 2));
    assert_eq!(r.input(Key::Char('e')), ReviewStep::Edit(1));
    assert_eq!(r.input(Key::Down), ReviewStep::ToMarkup);
}

#[test]
fn tag_filter_goes_round() {
    let mut f = TagFilter::new();
    f.toggle(4);
    assert!(f.is_included(4) && !f.is_excluded(4));
    f.toggle(4);
    assert!(!f.is_included(4) && f.is_excluded(4));
    f.toggle(4);
    assert!(!f.is_included(4) && !f.is_excluded(4));
    f.toggle(5);
    assert!(f.reset());
    assert!(!f.reset());
    assert!(f.includes().is_empty() && f.excludes().is_empty());
}

#[test]
fn cards_go_round_and_delete() {
    let mut p = CardsPage::new();
    p.set_cards(vec![10, 20, 30], Some(20));
    assert_eq!(p.position(), (1, 3));
    assert_eq!(p.input(Key::Right, false, false), CardsStep::Moved);
    assert_eq!(p.current_card(), Some(30));
    assert_eq!(p.input(Key::Right, false, false), CardsStep::Moved);
    assert_eq!(p.current_card(), Some(10));
    assert_eq!(p.input(Key::Left, false, false), CardsStep::Moved);
    assert_eq!(p.current_card(), Some(30));
    assert_eq!(p.input(Key::Delete, false, false), CardsStep::Deleted { card: 30, any_left: true });
    assert_eq!(p.position(), (1, 2));
    assert_eq!(p.input(Key::Char('e'), false, false), CardsStep::Edit(20));
    assert_eq!(p.input(Key::Char(' '), false, false), CardsStep::Ignored);
    assert_eq!(p.input(Key::Down, false, false), CardsStep::ToMarkup);
    assert_eq!(p.input(Key::Char('t'), false, false), CardsStep::Shown);
    assert!(p.show_tags());
    assert_eq!(p.input(Key::Char(' '), false, false), CardsStep::Ignored);
}

#[test]
fn cards_open_on_a_tag() {
    let mut p = CardsPage::new();
    p.on_enter(Some(CardsParam::Tag(5)), vec![3, 5, 7], &[]);
    assert!(p.show_tags());
    assert!(p.filter().is_included(5));
    assert_eq!(p.tag_list().index(), 1);
    assert_eq!(p.input(Key::Char(' '), false, false), CardsStep::FilterChanged);
    assert!(p.filter().is_excluded(5));
    assert_eq!(p.input(Key::Char('r'), false, false), CardsStep::FilterChanged);
    assert!(!p.filter().is_excluded(5));
    p.on_enter(Some(CardsParam::Card(1)), vec![3, 5], &[3, 5]);
    assert!(p.filter().is_included(3) && p.filter().is_included(5));
    p.on_enter(None, vec![3], &[]);
    assert!(p.filter().is_included(3) && !p.filter().is_included(5));
}

#[test]
fn editor_tag_toggles_go_back_and_forth() {
    let mut t = TagToggles::new();
    t.toggle(1);
    assert_eq!(t.state_of(1), Some(TagState::Add));
    t.toggle(1);
    assert_eq!(t.state_of(1), None);
    t.keep_all(&[2]);
    t.toggle(2);
    assert_eq!(t.state_of(2), Some(TagState::Remove));
    assert_eq!(t.to_remove(), vec![2]);
    t.toggle(2);
    assert_eq!(t.state_of(2), Some(TagState::Keep));
    assert!(t.clear());
    assert!(!t.clear());
}

#[test]
fn editing_a_card() {
    let mut p = CardEditorPage::new();
    let tags: &[i64] = &[2];
    p.on_enter(Some(1), vec![1, 2], Some(("hello", tags)));
    assert_eq!(p.text(), "hello");
    assert_eq!(p.toggles().state_of(2), Some(TagState::Keep));
    assert_eq!(p.input(Key::Char('x'), false, false), EditorStep::Render);
    assert_eq!(p.text(), "xhello");
    assert_eq!(p.input(Key::Char('t'), true, false), EditorStep::Render);
    assert!(p.show_tags());
    assert_eq!(p.input(Key::Char(' '), false, false), EditorStep::Render);
    assert_eq!(p.toggles().state_of(1), Some(TagState::Add));
    assert_eq!(p.input(Key::Char('r'), false, false), EditorStep::ResetTags { card: Some(1), changed: true });
    p.keep_tags(&[2]);
    assert_eq!(p.toggles().state_of(1), None);
    assert_eq!(p.input(Key::Char('p'), true, false), EditorStep::Render);
    assert!(p.is_preview());
    assert_eq!(p.input(Key::Char('s'), true, false), EditorStep::Save);
    assert_eq!(p.input(Key::Char('e'), true, false), EditorStep::ExternalEdit);
    p.replace_text("new");
    assert_eq!(p.text(), "new");
    p.saved();
    assert_eq!(p.card(), None);
    assert_eq!(p.text(), "");
    assert_eq!(p.input(Key::Char('s'), true, false), EditorStep::Ignored);
}

#[test]
fn logs_count_new_messages() {
    let mut l = LogsPage::new();
    assert!(l.is_empty());
    assert_eq!(l.input(Key::Right), LogsAction::Nothing);
    l.enqueue(Log::new(String::from("first")));
    l.enqueue(Log::new(String::from("second message")));
    assert_eq!(l.queue_len(), 2);
    l.on_enter();
    assert_eq!(l.queue_len(), 0);
    assert_eq!(l.input(Key::Right), LogsAction::Render);
    assert_eq!(l.input(Key::Right), LogsAction::Render);
    assert_eq!(l.selected_scroll(1, 10), 2);
    assert_eq!(l.selected_scroll(0, 10), 0);
    assert_eq!(l.logs()[1].columns(), 14);
    assert_eq!(l.input(Key::Char('c')), LogsAction::Done);
    assert!(l.is_empty());
}

#[test]
fn settings_pass_over_headings() {
    assert_eq!(next_setting(0), Some(2));
    assert_eq!(next_setting(2), Some(6));
    assert_eq!(next_setting(8), None);
    assert_eq!(previous_setting(6), Some(2));
    assert_eq!(previous_setting(2), None);
    assert_eq!(previous_setting(0), None);
}

#[test]
fn settings_page_changes_retention_and_colors() {
    let mut s = Settings::with_theme(ThemeMode::Dark);
    let mut p = SettingsPage::new(&s);
    assert_eq!(p.color_field(ColorSlot::Primary), "LightYellow");
    assert_eq!(p.color_field(ColorSlot::Secondary), "Yellow");
    assert_eq!(p.color_field(ColorSlot::Neutral), "245");
    assert_eq!(p.current(), Setting::DesiredRetention);
    assert_eq!(p.input(Key::Right, false, false, &mut s), SettingsStep::ApplySettings);
    assert_eq!(s.desired_retention(), 81);
    assert!(!p.is_saved());
    assert_eq!(p.input(Key::Left, false, false, &mut s), SettingsStep::ApplySettings);
    assert!(p.is_saved());
    assert_eq!(p.input(Key::Char('s'), true, false, &mut s), SettingsStep::Nothing);
    assert_eq!(p.input(Key::Down, false, false, &mut s), SettingsStep::Render);
    assert_eq!(p.current(), Setting::PrimaryColor);
    p.activate_fields();
    // The name shown reads back as the same color: nothing changes.
    assert_eq!(p.input(Key::Enter, false, false, &mut s), SettingsStep::Nothing);
    assert_eq!(p.input(Key::Char('x'), false, false, &mut s), SettingsStep::Render);
    assert_eq!(p.color_field(ColorSlot::Primary), "LightYellowx");
    assert_eq!(p.input(Key::Enter, false, false, &mut s), SettingsStep::BadColor(ColorSlot::Primary));
    assert_eq!(p.color_error(ColorSlot::Primary), "Failed to parse \"LightYellowx\" as a color");
    assert_eq!(p.color_entered(ColorSlot::Primary, None, &mut s), SettingsStep::BadColor(ColorSlot::Primary));
    assert_eq!(p.color_entered(ColorSlot::Primary, Some(Color::Red), &mut s), SettingsStep::Render);
    assert_eq!(s.primary(), Color::Red);
    assert!(!p.is_saved());
    assert_eq!(p.input(Key::Char('s'), true, false, &mut s), SettingsStep::Save);
    p.mark_saved(&s);
    assert!(p.is_saved());
    assert_eq!(p.input(Key::Char('r'), true, false, &mut s), SettingsStep::ApplySettings);
    assert_eq!(s, Settings::with_theme(ThemeMode::Dark));
    assert_eq!(p.color_field(ColorSlot::Primary), "LightYellow");
    assert!(!p.is_saved());
}

#[test]
fn settings_page_reads_colors_by_name() {
    let mut s = Settings::with_theme(ThemeMode::Dark);
    let mut p = SettingsPage::new(&s);
    p.input(Key::Down, false, false, &mut s);
    p.input(Key::Down, false, false, &mut s);
    assert_eq!(p.current(), Setting::SecondaryColor);
    p.activate_fields();
    for _ in 0..6 {
        p.input(Key::Backspace, false, false, &mut s);
    }
    assert_eq!(p.color_field(ColorSlot::Secondary), "");
    for c in " light-blue ".chars() {
        p.input(Key::Char(c), false, false, &mut s);
    }
    assert_eq!(p.input(Key::Enter, false, false, &mut s), SettingsStep::Render);
    assert_eq!(s.secondary(), Color::LightBlue);
}

#[test]
fn color_names_read_back() {
    for c in [Color::Reset, Color::DarkGray, Color::LightMagenta, Color::Rgb(10, 171, 255), Color::Indexed(7)] {
        assert_eq!(parse_color_text(&color_text(c)), Some(c));
    }
    assert_eq!(color_text(Color::Rgb(10, 171, 255)), "#0AABFF");
    assert_eq!(color_text(Color::Indexed(245)), "245");
    assert_eq!(color_text(Color::LightCyan), "LightCyan");
    assert_eq!(parse_color_text("bright red"), Some(Color::LightRed));
    assert_eq!(parse_color_text("grey"), Some(Color::Gray));
    assert_eq!(parse_color_text("#ff0000"), Some(Color::Rgb(255, 0, 0)));
    assert_eq!(parse_color_text("256"), None);
    assert_eq!(parse_color_text("nope"), None);
}

#[test]
fn search_types_then_browses() {
    let mut p = SearchPage::new();
    assert!(!p.on_enter(false));
    for c in "abc".chars() {
        assert_eq!(p.input(Key::Char(c), false, false, true), SearchStep::Render);
    }
    assert_eq!(p.input(Key::Down, false, false, true), SearchStep::Nothing);
    assert_eq!(p.input(Key::Enter, false, false, true), SearchStep::Search);
    assert_eq!(p.query(), "abc");
    assert_eq!(p.found(vec![4, 5]), Some(4));
    assert!(p.is_browsing());
    assert_eq!(p.input(Key::Right, false, false, true), SearchStep::Moved(5));
    assert_eq!(p.input(Key::Char('g'), false, false, true), SearchStep::Goto(5));
    assert_eq!(p.input(Key::Up, false, false, false), SearchStep::ScrollUp);
    assert_eq!(p.input(Key::Up, false, false, true), SearchStep::Render);
    assert!(!p.is_browsing());
    assert!(p.on_enter(false));
    assert!(!p.query_too_short());
}

#[test]
fn search_without_cards_ignores_keys() {
    let mut p = SearchPage::new();
    assert!(!p.on_enter(true));
    assert!(p.is_empty());
    assert_eq!(p.input(Key::Char('a'), false, false, true), SearchStep::Nothing);
}

#[test]
fn tags_stay_in_order_of_names() {
    let mut p = TagsPage::new(vec![(1, String::from("zeta")), (2, String::from("alpha")), (3, String::from("mid"))]);
    let names = |p: &TagsPage| p.tags().iter().map(|t| t.name.clone()).collect::<Vec<_>>();
    assert_eq!(names(&p), vec!["alpha", "mid", "zeta"]);
    assert_eq!(p.input(Key::Char('n'), false, false), TagsStep::Render);
    assert_eq!(p.state(), TagsState::New);
    for c in "beta".chars() {
        p.input(Key::Char(c), false, false);
    }
    assert_eq!(p.input(Key::Enter, false, false), TagsStep::AddTag);
    assert_eq!(p.entered_name(), "beta");
    p.name_taken("beta");
    assert_eq!(p.message(), "Tag name 'beta' already exists");
    p.added(4, "beta");
    assert_eq!(names(&p), vec!["alpha", "beta", "mid", "zeta"]);
    assert_eq!(p.current_tag_id(), Some(4));
    assert_eq!(p.state(), TagsState::Browse);
    assert_eq!(p.input(Key::Char('g'), false, false), TagsStep::Goto(4));
    assert_eq!(p.input(Key::Char('e'), false, false), TagsStep::Render);
    for c in "zz".chars() {
        p.input(Key::Char(c), false, false);
    }
    assert_eq!(p.input(Key::Enter, false, false), TagsStep::RenameTag(4));
    p.renamed(4, "zz");
    assert_eq!(names(&p), vec!["alpha", "mid", "zeta", "zz"]);
    assert_eq!(p.current_tag_id(), Some(4));
    assert_eq!(p.input(Key::Delete, false, false), TagsStep::Render);
    assert_eq!(p.input(Key::Char(' '), false, false), TagsStep::Render);
    assert_eq!(p.state(), TagsState::Delete(4, true));
    assert_eq!(p.input(Key::Char('y'), false, false), TagsStep::DeleteTag { id: 4, with_cards: true });
    assert_eq!(names(&p), vec!["alpha", "mid", "zeta"]);
    assert_eq!(p.current_tag_id(), Some(1));
}

#[test]
fn a_tag_form_is_cancelled_with_ctrl_c() {
    let mut p = TagsPage::new(vec![]);
    assert_eq!(p.input(Key::Char('e'), false, false), TagsStep::Nothing);
    assert_eq!(p.input(Key::Char('n'), false, false), TagsStep::Render);
    assert_eq!(p.input(Key::Char('c'), false, false), TagsStep::Render);
    assert_eq!(p.entered_name(), "c");
    assert_eq!(p.input(Key::Char('c'), true, false), TagsStep::Render);
    assert_eq!(p.state(), TagsState::Browse);
    assert_eq!(p.entered_name(), "");
}

#[test]
fn query_for_the_cards_of_a_filter() {
    assert_eq!(cards_with_tags_query(&[], &[]), "SELECT c.id FROM cards c ORDER BY c.create_time DESC");
    assert_eq!(
        cards_with_tags_query(&[3, 12], &[]),
        "SELECT c.id FROM cards c JOIN card_tags ct ON ct.card_id = c.id WHERE ct.tag_id IN (3,12) GROUP BY c.id HAVING COUNT(DISTINCT ct.tag_id) = 2 ORDER BY c.create_time DESC"
    );
    assert_eq!(
        cards_with_tags_query(&[], &[-5]),
        "SELECT c.id FROM cards c WHERE NOT EXISTS (SELECT 1 FROM card_tags ct2 WHERE ct2.card_id = c.id AND ct2.tag_id IN (-5)) ORDER BY c.create_time DESC"
    );
    assert_eq!(
        cards_with_tags_query(&[1], &[2, 3]),
        "SELECT c.id FROM cards c JOIN card_tags ct ON ct.card_id = c.id WHERE ct.tag_id IN (1) GROUP BY c.id HAVING COUNT(DISTINCT ct.tag_id) = 1 AND NOT EXISTS (SELECT 1 FROM card_tags ct2 WHERE ct2.card_id = c.id AND ct2.tag_id IN (2,3)) ORDER BY c.create_time DESC"
    );
}
