use glossary_lookup::definition::Definition;
use glossary_lookup::error::ProgramError;
use glossary_lookup::resolver::Reply;
use glossary_lookup::walk::{keep_readable_after, Action, Event, Walk};

fn lines(list: &[&str]) -> Vec<Option<String>> {
    list.iter().map(|line| Some(line.to_string())).collect()
}

fn results_page(anchors: &[(&str, &str)]) -> Event {
    let mut html = String::from("<div class=\"results\">");
    for (title, href) in anchors {
        html.push_str(&format!("<a href=\"{}\">{}</a>", href, title));
    }
    html.push_str("</div>");
    Event::Page(Reply::Body(html.into_bytes()))
}

fn entry_page(title: &str, text: &str) -> Event {
    Event::Page(Reply::Body(format!("<article><h1>{}</h1><p>{}</p></article>", title, text).into_bytes()))
}

fn search(term: &str) -> Action {
    Action::Fetch { url: format!("https://www.alleydog.com/search-results.php?q={}", term) }
}

fn announce(term: &str, position: usize, total: usize) -> Action {
    Action::Announce { term: term.to_string(), position, total }
}

/// Does the work that the walk asks for on a web of the given pages, the
/// operator answering every prompt, and returns the work done.
fn drive(mut walk: Walk, web: &[(&str, &str)]) -> Vec<Action> {
    let mut done = Vec::new();
    loop {
        let action = walk.pending();
        let event = match &action {
            Action::Announce { .. } | Action::Show { .. } => Event::Shown,
            Action::Fetch { url } => match web.iter().find(|(address, _)| address == url) {
                Some((_, body)) => Event::Page(Reply::Body(body.as_bytes().to_vec())),
                None => Event::Page(Reply::Failed),
            },
            Action::Prompt => Event::Line,
            Action::Finish | Action::Fail { .. } => {
                done.push(action);
                return done;
            }
        };
        done.push(action);
        walk = walk.step(event);
    }
}

fn fetch(url: &str) -> Action {
    Action::Fetch { url: url.to_string() }
}

fn show(title: &str, text: &str) -> Action {
    Action::Show { definition: Definition { title: title.to_string(), text: text.to_string() } }
}

const BIAS_RESULTS: &str = "<div class=\"results\">\
    <a href=\"https://site/bias\">Bias Glossary</a>\
    <a href=\"https://site/blog\">Bias Blog</a>\
    <a href=\"https://site/confirmation\">Confirmation Bias - Glossary</a>\
    <a href=\"https://site/suggest\">are we missing a definition?</a>\
    <a href=\"https://site/late\">Late Glossary</a>\
    </div>";
const BIAS_ENTRY: &str = "<article><h1> Bias </h1><p> A lean. </p></article>";
const CONFIRMATION_ENTRY: &str = "<article><h1>Confirmation Bias</h1><p>Seeing what one expects.</p></article>";
const NO_RESULTS: &str = "<div class=\"results\"></div>";

#[test]
fn whole_walk_does_each_term_in_turn() {
    let web = [
        ("https://www.alleydog.com/search-results.php?q=bias", BIAS_RESULTS),
        ("https://site/bias", BIAS_ENTRY),
        ("https://site/confirmation", CONFIRMATION_ENTRY),
        ("https://www.alleydog.com/search-results.php?q=cortisol", NO_RESULTS),
    ];
    let walk = Walk::new(&lines(&["anxiety", "bias", "cortisol"]), 2).unwrap();
    assert_eq!(
        drive(walk, &web),
        vec![
            announce("bias", 2, 3),
            search("bias"),
            fetch("https://site/bias"),
            fetch("https://site/confirmation"),
            show("Bias", "A lean."),
            show("Confirmation Bias", "Seeing what one expects."),
            Action::Prompt,
            announce("cortisol", 3, 3),
            search("cortisol"),
            Action::Prompt,
            Action::Finish,
        ]
    );
}

#[test]
fn first_error_ends_the_whole_walk() {
    let web = [
        ("https://www.alleydog.com/search-results.php?q=anxiety", NO_RESULTS),
        ("https://www.alleydog.com/search-results.php?q=bias", BIAS_RESULTS),
        ("https://site/bias", BIAS_ENTRY),
        ("https://www.alleydog.com/search-results.php?q=cortisol", NO_RESULTS),
    ];
    let walk = Walk::new(&lines(&["anxiety", "bias", "cortisol"]), 1).unwrap();
    assert_eq!(
        drive(walk, &web),
        vec![
            announce("anxiety", 1, 3),
            search("anxiety"),
            Action::Prompt,
            announce("bias", 2, 3),
            search("bias"),
            fetch("https://site/bias"),
            fetch("https://site/confirmation"),
            Action::Fail { error: ProgramError::Url },
        ]
    );
}

#[test]
fn unreadable_entry_page_ends_the_whole_walk() {
    let web = [
        ("https://www.alleydog.com/search-results.php?q=bias", BIAS_RESULTS),
        ("https://site/bias", "<article><p>no heading</p></article>"),
        ("https://site/confirmation", CONFIRMATION_ENTRY),
    ];
    let walk = Walk::new(&lines(&["bias", "cortisol"]), 1).unwrap();
    assert_eq!(
        drive(walk, &web),
        vec![
            announce("bias", 1, 2),
            search("bias"),
            fetch("https://site/bias"),
            Action::Fail { error: ProgramError::Parse },
        ]
    );
}

#[test]
fn start_position_below_one_is_refused() {
    assert!(matches!(Walk::new(&lines(&["anxiety", "bias"]), 0), Err(ProgramError::Arg)));
    assert!(matches!(Walk::new(&lines(&[]), 0), Err(ProgramError::Arg)));
}

#[test]
fn walk_from_the_second_term() {
    let mut walk = Walk::new(&lines(&["anxiety", "bias", "cortisol"]), 2).unwrap();
    let mut announced = Vec::new();
    let mut fetched = Vec::new();
    loop {
        let event = match walk.pending() {
            Action::Announce { term, position, total } => {
                announced.push((term, position, total));
                Event::Shown
            }
            Action::Fetch { url } => {
                fetched.push(url);
                results_page(&[])
            }
            Action::Show { .. } => Event::Shown,
            Action::Prompt => Event::Line,
            Action::Finish => break,
            Action::Fail { error } => panic!("{:?}", error),
        };
        walk = walk.step(event);
    }
    assert_eq!(announced, vec![("bias".to_string(), 2, 3), ("cortisol".to_string(), 3, 3)]);
    assert_eq!(
        fetched,
        vec![
            "https://www.alleydog.com/search-results.php?q=bias",
            "https://www.alleydog.com/search-results.php?q=cortisol"
        ]
    );
}

#[test]
fn walk_asks_for_each_piece_of_work_in_turn() {
    let mut walk = Walk::new(&lines(&["stress", "mood"]), 1).unwrap();
    assert_eq!(walk.pending(), announce("stress", 1, 2));
    walk = walk.step(Event::Shown);
    assert_eq!(walk.pending(), search("stress"));
    walk = walk.step(results_page(&[("Stress Glossary", "/stress"), ("Blog", "/blog"), ("Eustress Glossary", "/eu")]));
    assert_eq!(walk.pending(), Action::Fetch { url: "/stress".to_string() });
    walk = walk.step(entry_page(" Stress ", "Strain."));
    assert_eq!(walk.pending(), Action::Fetch { url: "/eu".to_string() });
    walk = walk.step(entry_page("Eustress", " Good strain. "));
    let first = Definition { title: "Stress".to_string(), text: "Strain.".to_string() };
    let second = Definition { title: "Eustress".to_string(), text: "Good strain.".to_string() };
    assert_eq!(walk.pending(), Action::Show { definition: first });
    walk = walk.step(Event::Shown);
    assert_eq!(walk.pending(), Action::Show { definition: second });
    walk = walk.step(Event::Shown);
    assert_eq!(walk.pending(), Action::Prompt);
    walk = walk.step(Event::Line);
    assert_eq!(walk.pending(), announce("mood", 2, 2));
    walk = walk.step(Event::Shown);
    assert_eq!(walk.pending(), search("mood"));
    walk = walk.step(results_page(&[]));
    assert_eq!(walk.pending(), Action::Prompt);
    walk = walk.step(Event::Line);
    assert_eq!(walk.pending(), Action::Finish);
    walk = walk.step(Event::Line);
    assert_eq!(walk.pending(), Action::Finish);
}

#[test]
fn event_that_answers_nothing_changes_nothing() {
    let mut walk = Walk::new(&lines(&["stress"]), 1).unwrap();
    walk = walk.step(Event::Line).step(Event::NoLine).step(results_page(&[]));
    assert_eq!(walk.pending(), announce("stress", 1, 1));
    walk = walk.step(Event::Shown).step(Event::Shown).step(Event::Line).step(Event::NoLine);
    assert_eq!(walk.pending(), search("stress"));
    walk = walk.step(results_page(&[])).step(Event::Shown).step(entry_page("T", "t"));
    assert_eq!(walk.pending(), Action::Prompt);
}

#[test]
fn fetch_failure_ends_the_walk() {
    let mut walk = Walk::new(&lines(&["stress", "mood"]), 1).unwrap();
    walk = walk.step(Event::Shown).step(Event::Page(Reply::Failed));
    assert_eq!(walk.pending(), Action::Fail { error: ProgramError::Url });
    walk = walk.step(Event::Shown).step(Event::Line).step(results_page(&[]));
    assert_eq!(walk.pending(), Action::Fail { error: ProgramError::Url });
}

#[test]
fn fetch_failure_of_a_link_ends_the_walk_before_anything_is_shown() {
    let mut walk = Walk::new(&lines(&["stress"]), 1).unwrap();
    walk = walk
        .step(Event::Shown)
        .step(results_page(&[("Glossary 1", "/1"), ("Glossary 2", "/2"), ("Glossary 3", "/3")]))
        .step(entry_page("One", "one"));
    assert_eq!(walk.pending(), Action::Fetch { url: "/2".to_string() });
    walk = walk.step(Event::Page(Reply::Failed));
    assert_eq!(walk.pending(), Action::Fail { error: ProgramError::Url });
}

#[test]
fn page_that_cannot_be_read_ends_the_walk() {
    let mut walk = Walk::new(&lines(&["stress", "mood"]), 1).unwrap();
    walk = walk.step(Event::Shown).step(Event::Page(Reply::Body(b"<p>no container</p>".to_vec())));
    assert_eq!(walk.pending(), Action::Fail { error: ProgramError::Parse });
}

#[test]
fn console_failure_ends_the_walk() {
    let mut walk = Walk::new(&lines(&["stress", "mood"]), 1).unwrap();
    walk = walk.step(Event::Shown).step(results_page(&[])).step(Event::NoLine);
    assert_eq!(walk.pending(), Action::Fail { error: ProgramError::Io });
}

#[test]
fn walk_over_no_terms_finishes_at_once() {
    assert_eq!(Walk::new(&lines(&[]), 1).unwrap().pending(), Action::Finish);
    assert_eq!(Walk::new(&lines(&["a", "b"]), 3).unwrap().pending(), Action::Finish);
    assert_eq!(Walk::new(&lines(&["a", "b"]), usize::MAX).unwrap().pending(), Action::Finish);
    assert_eq!(Walk::new(&vec![None, None], 1).unwrap().pending(), Action::Finish);
}

#[test]
fn unreadable_lines_are_dropped_after_the_skip() {
    let read = vec![None, Some("bias".to_string()), None, Some("cortisol".to_string()), None];
    assert_eq!(keep_readable_after(&read, 0), vec!["bias", "cortisol"]);
    assert_eq!(keep_readable_after(&read, 1), vec!["bias", "cortisol"]);
    assert_eq!(keep_readable_after(&read, 2), vec!["cortisol"]);
    assert_eq!(keep_readable_after(&read, 4), Vec::<String>::new());
    assert_eq!(keep_readable_after(&read, 5), Vec::<String>::new());
    assert_eq!(keep_readable_after(&read, 9), Vec::<String>::new());
    let walk = Walk::new(&read, 2).unwrap();
    assert_eq!(walk.pending(), announce("bias", 2, 3));
    let walk = walk.step(Event::Shown).step(results_page(&[])).step(Event::Line);
    assert_eq!(walk.pending(), announce("cortisol", 3, 3));
}

#[test]
fn total_is_the_position_of_the_last_term() {
    let walk = Walk::new(&lines(&["a", "b", "c", "d", "e"]), 4).unwrap();
    assert_eq!(walk.pending(), announce("d", 4, 5));
}
