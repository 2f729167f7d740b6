use udp_ticket_distribution::menu::{build_menu, CLMenu, CLMenuPage, CLPageOption};

fn two_pages() -> CLMenu {
    let mut menu = CLMenu::new();
    let mut first = CLMenuPage::new("First", "The first page", true);
    first.add(CLPageOption::new_with_closure("Stay", "First", "stay"));
    first.add(CLPageOption::new_with_closure("Go on", "Second", "go"));
    first.add(CLPageOption::new_with_closure("Get lost", "Nowhere", "lost"));
    let mut second = CLMenuPage::new("Second", "The second page", false);
    second.add(CLPageOption::new_with_closure("Back", "First", "back"));
    menu.add_menu(first);
    menu.add_menu(second);
    menu
}

#[test]
fn a_page_keeps_its_options_in_order() {
    let mut page = CLMenuPage::new("Main", "Please, choose your role:", true);
    assert_eq!(page.description(), "Please, choose your role:");
    assert!(page.option_names().is_empty());
    page.add(CLPageOption::new_with_closure("Passenger", "Main", "client_mode"));
    page.add(CLPageOption::new_with_closure("Distributor", "Main", "server_mode"));
    assert_eq!(page.option_names(), vec!["Passenger".to_string(), "Distributor".to_string()]);
}

#[test]
fn a_menu_without_a_start_page_does_not_begin() {
    let mut menu = CLMenu::new();
    assert!(!menu.begin());
    assert!(menu.current_page().is_none());
    menu.add_menu(CLMenuPage::new("Side", "Not where the menu opens", false));
    assert!(!menu.begin());
    assert!(menu.current_page().is_none());
    assert_eq!(menu.choose_option(1), None);
}

#[test]
fn a_menu_begins_at_its_start_page() {
    let mut menu = two_pages();
    assert!(menu.current_page().is_none());
    assert!(menu.begin());
    let page = menu.current_page().unwrap();
    assert_eq!(page.description(), "The first page");
    assert_eq!(page.option_names().len(), 3);
}

#[test]
fn choosing_goes_where_the_option_leads() {
    let mut menu = two_pages();
    assert!(menu.begin());
    assert_eq!(menu.choose_option(1), Some("stay".to_string()));
    assert_eq!(menu.current_page().unwrap().description(), "The first page");
    assert_eq!(menu.choose_option(2), Some("go".to_string()));
    assert_eq!(menu.current_page().unwrap().description(), "The second page");
    assert_eq!(menu.choose_option(1), Some("back".to_string()));
    assert_eq!(menu.current_page().unwrap().description(), "The first page");
    assert_eq!(menu.choose_option(3), Some("lost".to_string()));
    assert!(menu.current_page().is_none());
    assert_eq!(menu.choose_option(1), None);
    assert!(menu.begin());
    assert_eq!(menu.current_page().unwrap().description(), "The first page");
}

#[test]
fn numbers_without_an_option_choose_nothing() {
    let mut menu = two_pages();
    assert!(menu.begin());
    for variant in [0usize, 4, 5, 100, usize::MAX] {
        assert_eq!(menu.choose_option(variant), None);
        assert_eq!(menu.current_page().unwrap().description(), "The first page");
    }
}

#[test]
fn a_page_takes_the_place_of_the_page_of_its_name() {
    let mut menu = two_pages();
    let mut again = CLMenuPage::new("First", "The first page, once more", false);
    again.add(CLPageOption::new_with_closure("Only", "Second", "only"));
    menu.add_menu(again);
    assert!(menu.begin());
    let page = menu.current_page().unwrap();
    assert_eq!(page.description(), "The first page, once more");
    assert_eq!(page.option_names(), vec!["Only".to_string()]);
    assert_eq!(menu.choose_option(2), None);
    assert_eq!(menu.choose_option(1), Some("only".to_string()));
    assert_eq!(menu.current_page().unwrap().description(), "The second page");
}

#[test]
fn the_last_start_page_is_where_the_menu_opens() {
    let mut menu = two_pages();
    menu.add_menu(CLMenuPage::new("Third", "The third page", true));
    assert!(menu.begin());
    assert_eq!(menu.current_page().unwrap().description(), "The third page");
}

#[test]
fn the_menu_of_the_program() {
    let mut menu = build_menu();
    assert!(menu.begin());
    let page = menu.current_page().unwrap();
    assert_eq!(page.description(), "Please, choose your role:");
    assert_eq!(
        page.option_names(),
        vec!["Passenger".to_string(), "Distributor".to_string(), "Exit".to_string()]
    );
    assert_eq!(menu.choose_option(1), Some("client_mode".to_string()));
    assert!(menu.current_page().is_some());
    assert_eq!(menu.choose_option(2), Some("server_mode".to_string()));
    assert!(menu.current_page().is_some());
    assert_eq!(menu.choose_option(4), None);
    assert_eq!(menu.choose_option(3), Some("exit".to_string()));
    assert!(menu.current_page().is_none());
}
