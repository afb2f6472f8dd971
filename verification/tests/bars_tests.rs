use loss::canvas::{menu_title, push_blanks, push_text, Canvas};
use loss::finder::Finder;
use loss::helper::{helper_line, populate_helper_menu, HelperMenu};
use loss::render::{LineWithRenderScheme, RenderScheme, StyledRange};
use loss::status_bar::{decimal_digits, StatusBar};

fn bar(canvas: &Canvas) -> String {
    String::from_utf8(canvas.status_bar.raw_content().to_vec()).unwrap()
}

#[test]
fn menu_title_is_centred_and_cut() {
    assert_eq!(menu_title(" Menu ", 20), b"======= Menu =======".to_vec());
    assert_eq!(menu_title(" Menu ", 21), b"======= Menu ========".to_vec());
    assert_eq!(menu_title(" Menu ", 9), b"======= M".to_vec());
    assert_eq!(menu_title(" Menu ", 0), Vec::<u8>::new());
    assert_eq!(menu_title("", 3), b"===".to_vec());
    let mut buffer = b"ab".to_vec();
    push_blanks(&mut buffer, 3);
    push_text(&mut buffer, "cd");
    push_blanks(&mut buffer, 0);
    assert_eq!(buffer, b"ab   cd".to_vec());
}

#[test]
fn decimal_digits_of_numbers() {
    assert_eq!(decimal_digits(0), b"0".to_vec());
    assert_eq!(decimal_digits(7), b"7".to_vec());
    assert_eq!(decimal_digits(10), b"10".to_vec());
    assert_eq!(decimal_digits(100), b"100".to_vec());
    assert_eq!(decimal_digits(9081726354), b"9081726354".to_vec());
}

#[test]
fn status_bar_shows_text_and_ratio() {
    let mut status = StatusBar::default();
    let mut canvas = Canvas::default();
    status.set_text("Search: abc");
    status.set_ratio(42);
    assert_eq!(status.render(&mut canvas, 30), Some(16));
    assert_eq!(bar(&canvas), format!("Search: abc{}42%", " ".repeat(16)));
    assert_eq!(canvas.cursor_pos_x, Some(11));
    status.set_ratio(100);
    assert_eq!(status.render(&mut canvas, 18), Some(3));
    assert_eq!(bar(&canvas), "Search: abc   100%");
    // the text leaves no room for the ratio
    assert_eq!(status.render(&mut canvas, 17), None);
    assert_eq!(bar(&canvas), "Search: abc");
    assert_eq!(status.render(&mut canvas, 6), None);
    assert_eq!(bar(&canvas), "Search");
    assert_eq!(canvas.cursor_pos_x, Some(11));
    status.clear_text();
    status.set_ratio(0);
    assert_eq!(status.render(&mut canvas, 7), Some(5));
    assert_eq!(bar(&canvas), "     0%");
}

#[test]
fn status_bar_shows_a_message_once() {
    let mut status = StatusBar::default();
    let mut canvas = Canvas::default();
    status.set_text("text");
    status.set_oneoff_error_text("Not found");
    assert_eq!(status.render(&mut canvas, 40), None);
    assert_eq!(bar(&canvas), "Not found");
    assert_eq!(canvas.cursor_pos_x, Some(9));
    assert_eq!(status.render(&mut canvas, 40), Some(34));
    assert_eq!(bar(&canvas), format!("text{}0%", " ".repeat(34)));
    status.set_oneoff_error_text("Not found");
    assert_eq!(status.render(&mut canvas, 3), None);
    assert_eq!(bar(&canvas), "Not");
    assert_eq!(canvas.cursor_pos_x, Some(9));
}

#[test]
fn finder_strip_on_the_status_bar() {
    let mut finder = Finder::new();
    finder.update_search_pattern("abc");
    finder.add_active_slot(0);
    let mut status = StatusBar::default();
    let mut canvas = Canvas::default();
    status.set_text("ab");
    status.set_ratio(5);
    let spaces = status.render(&mut canvas, 50).unwrap();
    assert_eq!(spaces, 46);
    finder.render_status_bar(&mut canvas, spaces);
    assert_eq!(
        bar(&canvas),
        format!(
            "ab{} *1  2  3  4  5  6  7  8  9 *0 |   5%",
            " ".repeat(11)
        )
    );
    let schemes: Vec<StyledRange> = canvas.status_bar.schemes().to_vec();
    assert_eq!(schemes.len(), 10);
    for (index, range) in schemes.iter().enumerate() {
        assert_eq!((range.start, range.end), (15 + 3 * index, 16 + 3 * index));
        if index == 0 {
            assert_eq!(
                range.scheme,
                RenderScheme::Highlight(finder.slots[0].highlight_option)
            );
        } else {
            assert_eq!(range.scheme, RenderScheme::Dim);
        }
    }
    // fewer than forty blanks: the bar stays as it is
    let spaces = status.render(&mut canvas, 45).unwrap();
    assert_eq!(spaces, 41);
    let before = bar(&canvas);
    finder.render_status_bar(&mut canvas, 39);
    assert_eq!(bar(&canvas), before);
    assert!(canvas.status_bar.schemes().is_empty());
}

fn popup(canvas: &Canvas, row: usize) -> String {
    String::from_utf8(canvas.popup_menu[row].raw_content().to_vec()).unwrap()
}

#[test]
fn finder_menu_is_drawn() {
    let mut finder = Finder::new();
    finder.update_search_pattern("error");
    finder.set_active_slot(2);
    finder.toggle_highlight_flag();
    finder.toggle_exclusive_action();
    finder.toggle_pattern_type();
    let mut canvas = Canvas::default();
    finder.render_menu(&mut canvas, 60, 16);
    assert_eq!(canvas.popup_menu.len(), 11);
    assert_eq!(
        popup(&canvas, 0),
        format!("{}{}{}", "=".repeat(23), " Finder Menu ", "=".repeat(24))
    );
    assert_eq!(
        popup(&canvas, 1),
        "   1 | On Off | Fold Exclusive | Raw Regex | error"
    );
    assert_eq!(popup(&canvas, 2), " * 2 | On Off | Fold Exclusive | Raw Regex | ");
    assert_eq!(popup(&canvas, 10), "   0 | On Off | Fold Exclusive | Raw Regex | ");
    let dim = |start: usize, end: usize| StyledRange {
        start,
        end,
        scheme: RenderScheme::Dim,
    };
    let number = |slot: usize| StyledRange {
        start: 3,
        end: 4,
        scheme: RenderScheme::Highlight(finder.slots[slot].highlight_option),
    };
    assert_eq!(
        canvas.popup_menu[1].schemes().to_vec(),
        vec![number(0), dim(10, 13), dim(16, 20), dim(21, 30), dim(37, 42)]
    );
    assert_eq!(
        canvas.popup_menu[2].schemes().to_vec(),
        vec![number(1), dim(7, 9), dim(16, 20), dim(33, 36)]
    );
    assert_eq!(bar(&canvas), "");
    // a narrow window cuts the pattern
    finder.render_menu(&mut canvas, 50, 16);
    assert_eq!(
        popup(&canvas, 1),
        "   1 | On Off | Fold Exclusive | Raw Regex | error"
    );
    finder.set_active_slot(1);
    finder.update_search_pattern("a long pattern");
    finder.render_menu(&mut canvas, 50, 16);
    assert_eq!(
        popup(&canvas, 1),
        " * 1 | On Off | Fold Exclusive | Raw Regex | a lon"
    );
    // a small window shows the title alone
    let mut canvas = Canvas::default();
    finder.render_menu(&mut canvas, 49, 16);
    assert!(canvas.popup_menu.is_empty());
    assert_eq!(
        bar(&canvas),
        format!("{}{}{}", "=".repeat(18), " Finder Menu ", "=".repeat(18))
    );
    finder.render_menu(&mut canvas, 80, 15);
    assert!(canvas.popup_menu.is_empty());
}

#[test]
fn helper_menu_is_drawn() {
    let mut helper = HelperMenu::default();
    assert!(!helper.is_active());
    helper.toggle_active();
    assert!(helper.is_active());
    let mut canvas = Canvas::default();
    helper.render(&mut canvas, 75, 22);
    assert_eq!(canvas.popup_menu.len(), 17);
    assert_eq!(
        popup(&canvas, 0),
        format!("{}{}{}", "=".repeat(31), " Helper Menu ", "=".repeat(31))
    );
    assert_eq!(
        popup(&canvas, 1),
        "+------- basic commands -------+     +------- finder commands -------+"
    );
    assert_eq!(
        popup(&canvas, 2),
        "| q: exit                      |     | +:   add active slot          |"
    );
    assert_eq!(popup(&canvas, 15), "| F: enter follow mode         |");
    assert_eq!(popup(&canvas, 16), "+------------------------------+");
    assert_eq!(helper_line(9), "| J: jump up n lines           |");
    assert_eq!(bar(&canvas), "");
    assert_eq!(canvas.cursor_pos_x, Some(0));
    let mut canvas = Canvas::default();
    helper.render(&mut canvas, 74, 22);
    assert!(canvas.popup_menu.is_empty());
    assert_eq!(canvas.cursor_pos_x, None);
    assert_eq!(bar(&canvas).len(), 74);
    helper.render(&mut canvas, 75, 21);
    assert!(canvas.popup_menu.is_empty());
    populate_helper_menu(&mut canvas, b"title");
    assert_eq!(canvas.popup_menu.len(), 17);
    assert_eq!(popup(&canvas, 0), "title");
    helper.toggle_active();
    assert!(!helper.is_active());
}

#[test]
fn canvas_is_cleared_and_written_out() {
    let mut canvas = Canvas::default();
    canvas.body_area.push(LineWithRenderScheme::new(b"first"));
    canvas.body_area.push(LineWithRenderScheme::new(b"second"));
    canvas.body_area.push(LineWithRenderScheme::new(b"third"));
    canvas.popup_menu.push(LineWithRenderScheme::new(b"menu"));
    canvas.status_bar = LineWithRenderScheme::new(b"status");
    canvas.cursor_pos_x = Some(3);
    assert_eq!(
        canvas.screen_buffer(),
        vec![
            b"first\r\n".to_vec(),
            b"second\r\n".to_vec(),
            b"menu\r\n".to_vec(),
            b"status".to_vec()
        ]
    );
    canvas.clear();
    assert!(canvas.body_area.is_empty());
    assert!(canvas.popup_menu.is_empty());
    assert_eq!(bar(&canvas), "");
    assert_eq!(canvas.cursor_pos_x, Some(3));
    assert_eq!(canvas.screen_buffer(), vec![Vec::<u8>::new()]);
}
