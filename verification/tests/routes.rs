use rhizome::error::KBError;
use rhizome::routes::admin::dashboard::dashboard_access;
use rhizome::routes::admin::password::{
    check_current_password, check_password_form, password_changed, FormData, PasswordChange,
};
use rhizome::routes::home::HomePage;
use rhizome::routes::login::{login_outcome, login_succeeded};
use rhizome::routes::pages::get::{EditPage, ReadPage};
use rhizome::routes::pages::post::{link_columns, new_page_title, page_location, plan_page_save, EditForm, Info};
use rhizome::routes::pages::search::SearchResults;
use rhizome::routes::pages::suggest::{suggestion_pattern, Info as SuggestInfo};
use rhizome::routes::pages::{summarize, PageInfo};
use rhizome::utils::{collect_messages_as_html, see_other, FlashLevel};

fn info(title: &str, secs: i64, summary: Option<&str>) -> PageInfo {
    PageInfo { title: title.to_string(), updated_at: secs, summary: summary.map(|s| s.to_string()) }
}

#[test]
fn summary_of_a_listed_page() {
    let s = summarize(&info("Test Page", 0, Some("About [x](u:Y Z)")), "pages/").unwrap();
    assert_eq!(s.url, "pages/Test Page");
    assert_eq!(s.title, "Test Page");
    assert_eq!(s.updated_at, "1970-01-01");
    assert_eq!(s.summary.unwrap(), "<p>About <a href=\"pages/Y%20Z\">x</a></p>\n");
    let t = summarize(&info("T", 1_700_000_000, None), "").unwrap();
    assert_eq!(t.updated_at, "2023-11-14");
    assert_eq!(t.url, "T");
    assert!(t.summary.is_none());
}

#[test]
fn out_of_range_day_is_refused() {
    assert!(summarize(&info("T", i64::MAX, None), "").is_none());
    assert!(HomePage::new(&vec![info("A", 0, None), info("B", i64::MAX, None)]).is_none());
}

#[test]
fn home_and_search_list_pages() {
    let list = vec![info("A", 86_400, None), info("B", 0, Some("b"))];
    let home = HomePage::new(&list).unwrap();
    assert_eq!(home.recently_edited.len(), 2);
    assert_eq!(home.recently_edited[0].url, "pages/A");
    assert_eq!(home.recently_edited[0].updated_at, "1970-01-02");
    let found = SearchResults::new("q", &list).unwrap();
    assert_eq!(found.query, "q");
    assert_eq!(found.results[1].summary.as_deref(), Some("<p>b</p>\n"));
}

#[test]
fn read_view_renders_content_and_backlinks() {
    let view = ReadPage::new("Page", "# Head\n[l](b:Other)", &vec![info("Src", 0, None)]).unwrap();
    assert_eq!(view.id, "Page");
    assert_eq!(view.title, "Page");
    assert_eq!(view.content, "<h1>Head</h1>\n<p><a href=\"Other\">l</a></p>\n");
    assert_eq!(view.backlinks[0].url, "Src");
}

#[test]
fn edit_view_escapes_backticks() {
    let view = EditPage::new("P", "P", "a `code` b");
    assert_eq!(view.content, "a \\`code\\` b");
}

#[test]
fn page_creation_and_saving_locations() {
    let title = new_page_title(&Info { value: "  Test Page \n".to_string() });
    assert_eq!(title, "Test Page");
    assert_eq!(page_location(&title), "/pages/Test Page");
}

#[test]
fn saving_a_page_keeps_unique_links() {
    let save = plan_page_save("Test Page", &EditForm { markdown: "This is the test page summary.\n[a](u:X) [b](b:X)".to_string() });
    assert_eq!(save.location, "/pages/Test Page");
    assert_eq!(save.page.summary.as_deref(), Some("This is the test page summary."));
    assert_eq!(save.page.links.len(), 1);
    assert!(save.page.links[0].bidirectional);
    assert_eq!(save.page.links[0].text, "b");
    let single = plan_page_save("Test Page", &EditForm { markdown: "This is the test page summary.".to_string() });
    assert_eq!(single.page.text, "This is the test page summary.");
    assert_eq!(single.page.summary.as_deref(), Some("This is the test page summary."));
    assert!(single.page.links.is_empty());
    let many = plan_page_save("P", &EditForm { markdown: "[a](u:X) [b](b:X) [c](u:Y)".to_string() });
    let (targets, directions) = link_columns(&many.page.links);
    assert_eq!(targets, vec!["Y".to_string(), "X".to_string()]);
    assert_eq!(directions, vec![false, true]);
}

#[test]
fn suggestions_match_title_beginnings() {
    assert_eq!(suggestion_pattern(&SuggestInfo { value: "Tes".to_string() }), "Tes%");
}

#[test]
fn flash_messages_become_paragraphs() {
    let html = collect_messages_as_html(vec!["one".to_string(), "two".to_string()]);
    assert_eq!(html, "<p><i>one</i></p>\n<p><i>two</i></p>\n");
    assert_eq!(collect_messages_as_html(vec![]), "");
}

#[test]
fn redirects() {
    let r = see_other("/x");
    assert_eq!(r.location, "/x");
    assert!(r.flash.is_none());
    assert_eq!(login_succeeded().location, "/admin");
    assert_eq!(dashboard_access(None).unwrap_err().location, "/login");
    assert_eq!(dashboard_access(Some(3)).unwrap(), 3);
}

#[test]
fn failed_login_goes_back_with_reason() {
    let back = login_outcome(Err(KBError::InvalidCredentials("Unknown username.".to_string()))).unwrap_err();
    assert_eq!(back.location, "/login");
    let flash = back.flash.unwrap();
    assert_eq!(flash.level, FlashLevel::Error);
    assert_eq!(flash.content, "Invalid credentials.");
    assert_eq!(login_outcome(Ok(5)).unwrap(), 5);
}

fn form(current: &str, new: &str, check: &str) -> FormData {
    FormData {
        current_password: current.to_string(),
        new_password: new.to_string(),
        new_password_check: check.to_string(),
    }
}

#[test]
fn must_log_in_to_change_password() {
    match check_password_form(None, &form("a", "b", "b")) {
        PasswordChange::Answer(r) => {
            assert_eq!(r.location, "/login");
            assert!(r.flash.is_none());
        }
        _ => panic!("expected a redirect"),
    }
}

#[test]
fn new_password_fields_must_agree() {
    match check_password_form(Some(1), &form("a", "b", "c")) {
        PasswordChange::Answer(r) => {
            assert_eq!(r.location, "/admin/password");
            let flash = r.flash.unwrap();
            assert_eq!(flash.level, FlashLevel::Error);
            assert!(flash.content.contains("You entered two different new passwords"));
        }
        _ => panic!("expected a redirect"),
    }
    assert!(matches!(check_password_form(Some(1), &form("a", "b", "b")), PasswordChange::Proceed(1)));
}

#[test]
fn current_password_must_be_right() {
    match check_current_password(1, Err(KBError::InvalidCredentials("Invalid password.".to_string()))) {
        PasswordChange::Answer(r) => {
            assert_eq!(r.location, "/admin/password");
            assert!(r.flash.unwrap().content.contains("The current password is incorrect"));
        }
        _ => panic!("expected a redirect"),
    }
    assert!(matches!(check_current_password(1, Err(KBError::UnexpectedError("db".to_string()))), PasswordChange::Fail(_)));
    assert!(matches!(check_current_password(1, Ok(9)), PasswordChange::Proceed(1)));
    let done = password_changed();
    assert_eq!(done.location, "/admin/password");
    let flash = done.flash.unwrap();
    assert_eq!(flash.level, FlashLevel::Info);
    assert_eq!(flash.content, "Your password has been changed.");
}
