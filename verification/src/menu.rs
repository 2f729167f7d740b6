//! A menu of pages of numbered options: which page is shown, and what
//! choosing an option does. Showing a page and reading the choice is
//! somebody else's business.

use vstd::prelude::*;

verus! {

/// One option of a page.
pub struct CLPageOption {
    name: String,
    fn_name_on_choose: String,
    redirect_on_page: String,
}

/// The model of an option.
pub struct OptionView {
    /// What the option is called on the page.
    pub name: Seq<char>,
    /// What choosing the option hands to the caller.
    pub fn_name_on_choose: Seq<char>,
    /// The name of the page that choosing the option leads to.
    pub redirect_on_page: Seq<char>,
}

impl View for CLPageOption {
    type V = OptionView;

    closed spec fn view(&self) -> OptionView {
        OptionView {
            name: self.name@,
            fn_name_on_choose: self.fn_name_on_choose@,
            redirect_on_page: self.redirect_on_page@,
        }
    }
}

impl CLPageOption {
    /// An option called `name` that leads to the page `redirect_on_page`
    /// and hands `fn_name_on_choose` to the caller.
    pub fn new_with_closure(name: &str, redirect_on_page: &str, fn_name_on_choose: &str) -> (option:
        Self)
        ensures
            option@ == (OptionView {
                name: name@,
                fn_name_on_choose: fn_name_on_choose@,
                redirect_on_page: redirect_on_page@,
            }),
    {
        CLPageOption {
            name: name.to_owned(),
            fn_name_on_choose: fn_name_on_choose.to_owned(),
            redirect_on_page: redirect_on_page.to_owned(),
        }
    }
}

/// One page of a menu.
pub struct CLMenuPage {
    name: String,
    description: String,
    options: Vec<CLPageOption>,
    is_start_menu: bool,
}

/// The model of a page.
pub struct PageView {
    /// The name that options lead to the page by.
    pub name: Seq<char>,
    /// The line above the options.
    pub description: Seq<char>,
    /// The options, in the order in which they are numbered from 1.
    pub options: Seq<OptionView>,
    /// The menu opens with this page.
    pub is_start_menu: bool,
}

impl View for CLMenuPage {
    type V = PageView;

    closed spec fn view(&self) -> PageView {
        PageView {
            name: self.name@,
            description: self.description@,
            options: self.options@.map_values(|o: CLPageOption| o@),
            is_start_menu: self.is_start_menu,
        }
    }
}

impl CLMenuPage {
    /// A page without options.
    pub fn new(name: &str, description: &str, is_start_menu: bool) -> (page: Self)
        ensures
            page@ == (PageView {
                name: name@,
                description: description@,
                options: Seq::<OptionView>::empty(),
                is_start_menu,
            }),
    {
        let page = CLMenuPage {
            name: name.to_owned(),
            description: description.to_owned(),
            options: Vec::new(),
            is_start_menu,
        };
        assert(page@.options =~= Seq::<OptionView>::empty());
        page
    }

    /// Puts one more option at the end of the page.
    pub fn add(&mut self, option: CLPageOption)
        ensures
            final(self)@ == (PageView { options: old(self)@.options.push(option@), ..old(self)@ }),
    {
        self.options.push(option);
        assert(self@.options =~= old(self)@.options.push(option@));
    }

    /// The line above the options.
    pub fn description(&self) -> (description: String)
        ensures
            description@ == self@.description,
    {
        self.description.clone()
    }

    /// What the options are called, in their order.
    pub fn option_names(&self) -> (names: Vec<String>)
        ensures
            names@.len() == self@.options.len(),
            forall|i: int|
                0 <= i < names@.len() ==> (#[trigger] names@[i])@ == self@.options[i].name,
    {
        let mut names: Vec<String> = Vec::new();
        let mut i: usize = 0;
        while i < self.options.len()
            invariant
                i <= self.options@.len(),
                names@.len() == i,
                forall|k: int|
                    0 <= k < i ==> (#[trigger] names@[k])@ == self.options@[k].name@,
            decreases self.options@.len() - i,
        {
            names.push(self.options[i].name.clone());
            i += 1;
        }
        names
    }
}

/// A menu: its pages by their names, the page it opens with and the page
/// it is at.
pub struct CLMenu {
    menus: Vec<CLMenuPage>,
    start_menu: String,
    current_menu: String,
}

/// The model of a menu.
pub struct MenuView {
    /// The pages by their names.
    pub pages: Map<Seq<char>, PageView>,
    /// The name of the page that the menu opens with; empty while none is
    /// set.
    pub start_menu: Seq<char>,
    /// The name of the page that the menu is at.
    pub current_menu: Seq<char>,
}

/// The option that number `variant` picks on the page that the menu is at,
/// if the menu is at a page and the page has an option of that number.
pub open spec fn chosen(m: MenuView, variant: int) -> Option<OptionView> {
    if m.pages.contains_key(m.current_menu) && 1 <= variant
        <= m.pages[m.current_menu].options.len() {
        Some(m.pages[m.current_menu].options[variant - 1])
    } else {
        None
    }
}

impl View for CLMenu {
    type V = MenuView;

    closed spec fn view(&self) -> MenuView {
        MenuView {
            pages: Map::new(
                |name: Seq<char>| self.holds(name),
                |name: Seq<char>| self.menus@[self.place_of(name)]@,
            ),
            start_menu: self.start_menu@,
            current_menu: self.current_menu@,
        }
    }
}

impl CLMenu {
    /// Some page bears the name.
    closed spec fn holds(&self, name: Seq<char>) -> bool {
        exists|i: int| 0 <= i < self.menus@.len() && (#[trigger] self.menus@[i]).name@ == name
    }

    /// The place of a page that bears the name.
    closed spec fn place_of(&self, name: Seq<char>) -> int {
        choose|i: int| 0 <= i < self.menus@.len() && (#[trigger] self.menus@[i]).name@ == name
    }

    /// No two pages bear the same name.
    pub closed spec fn wf(&self) -> bool {
        forall|i: int, j: int|
            0 <= i < j < self.menus@.len() ==> (#[trigger] self.menus@[i]).name@
                != (#[trigger] self.menus@[j]).name@
    }

    /// The page at place `i` is the page that the menu holds under its
    /// name.
    proof fn lemma_page_at(&self, i: int)
        requires
            self.wf(),
            0 <= i < self.menus@.len(),
        ensures
            self.holds(self.menus@[i].name@),
            self.place_of(self.menus@[i].name@) == i,
            self@.pages.contains_key(self.menus@[i].name@),
            self@.pages[self.menus@[i].name@] == self.menus@[i]@,
    {
    }

    /// A menu without pages.
    pub fn new() -> (menu: Self)
        ensures
            menu.wf(),
            menu@ == (MenuView {
                pages: Map::<Seq<char>, PageView>::empty(),
                start_menu: Seq::<char>::empty(),
                current_menu: Seq::<char>::empty(),
            }),
    {
        let menu = CLMenu {
            menus: Vec::new(),
            start_menu: String::new(),
            current_menu: String::new(),
        };
        assert(menu@.pages =~= Map::<Seq<char>, PageView>::empty());
        menu
    }

    /// Puts a page into the menu, in place of the page of the same name if
    /// there is one. A page that the menu opens with becomes the page that
    /// the menu opens with.
    pub fn add_menu(&mut self, menu: CLMenuPage)
        requires
            old(self).wf(),
        ensures
            final(self).wf(),
            final(self)@ == (MenuView {
                pages: old(self)@.pages.insert(menu@.name, menu@),
                start_menu: if menu@.is_start_menu {
                    menu@.name
                } else {
                    old(self)@.start_menu
                },
                current_menu: old(self)@.current_menu,
            }),
    {
        if menu.is_start_menu {
            self.start_menu = menu.name.clone();
        }
        let ghost added = menu;
        let mut i: usize = 0;
        while i < self.menus.len()
            invariant
                old(self).wf(),
                added == menu,
                i <= self.menus@.len(),
                self.menus == old(self).menus,
                self.current_menu == old(self).current_menu,
                self.start_menu@ == if menu.is_start_menu {
                    menu.name@
                } else {
                    old(self).start_menu@
                },
                forall|k: int| 0 <= k < i ==> (#[trigger] self.menus@[k]).name@ != menu.name@,
            decreases self.menus@.len() - i,
        {
            if self.menus[i].name == menu.name {
                self.menus.set(i, menu);
                proof {
                    self.lemma_pages_after(*old(self), added, i as int);
                }
                return ;
            }
            i += 1;
        }
        self.menus.push(menu);
        proof {
            self.lemma_pages_after(*old(self), added, old(self).menus@.len() as int);
        }
    }

    /// The pages of a menu that differs from `before` at place `i` only,
    /// where it has the page `added`, whose name no other page bears.
    proof fn lemma_pages_after(&self, before: CLMenu, added: CLMenuPage, i: int)
        requires
            before.wf(),
            self.wf(),
            0 <= i < self.menus@.len(),
            self.menus@[i] == added,
            self.menus@.len() == before.menus@.len() || (self.menus@.len() == before.menus@.len()
                + 1 && i == before.menus@.len()),
            forall|k: int|
                0 <= k < before.menus@.len() && k != i ==> self.menus@[k] == before.menus@[k],
            i < before.menus@.len() ==> before.menus@[i].name@ == added.name@,
        ensures
            self@.pages == before@.pages.insert(added@.name, added@),
    {
        let want = before@.pages.insert(added@.name, added@);
        assert forall|name: Seq<char>| self@.pages.contains_key(name) <==> want.contains_key(
            name,
        ) by {
            if self.holds(name) {
                let k = self.place_of(name);
            }
            if before.holds(name) {
                let k = before.place_of(name);
            }
        }
        assert forall|name: Seq<char>| self@.pages.contains_key(name) implies self@.pages[name]
            == want[name] by {
            let k = self.place_of(name);
            self.lemma_page_at(k);
            if k != i {
                before.lemma_page_at(k);
            }
        }
    }

    /// Puts the menu at the page that it opens with. Tells whether there
    /// is such a page; the menu stays where it is if there is none.
    pub fn begin(&mut self) -> (ready: bool)
        requires
            old(self).wf(),
        ensures
            final(self).wf(),
            ready == (old(self)@.start_menu.len() > 0),
            ready ==> final(self)@ == (MenuView {
                current_menu: old(self)@.start_menu,
                ..old(self)@
            }),
            !ready ==> final(self)@ == old(self)@,
    {
        if self.start_menu.as_str().is_empty() {
            return false;
        }
        self.current_menu = self.start_menu.clone();
        assert(self@.pages =~= old(self)@.pages);
        true
    }

    /// The page that the menu is at, if the menu holds a page of that
    /// name.
    pub fn current_page(&self) -> (page: Option<&CLMenuPage>)
        requires
            self.wf(),
        ensures
            match page {
                Some(p) => self@.pages.contains_key(self@.current_menu) && p@
                    == self@.pages[self@.current_menu],
                None => !self@.pages.contains_key(self@.current_menu),
            },
    {
        let mut i: usize = 0;
        while i < self.menus.len()
            invariant
                self.wf(),
                i <= self.menus@.len(),
                forall|k: int|
                    0 <= k < i ==> (#[trigger] self.menus@[k]).name@ != self.current_menu@,
            decreases self.menus@.len() - i,
        {
            if self.menus[i].name == self.current_menu {
                proof {
                    self.lemma_page_at(i as int);
                }
                return Some(&self.menus[i]);
            }
            i += 1;
        }
        None
    }

    /// Chooses option number `variant` of the page that the menu is at:
    /// the menu goes to the page that the option leads to, and what the
    /// option hands over is returned. Where the menu is at no page, or the
    /// page has no option of that number, nothing is chosen and the menu
    /// stays where it is.
    pub fn choose_option(&mut self, variant: usize) -> (picked: Option<String>)
        requires
            old(self).wf(),
        ensures
            final(self).wf(),
            match picked {
                Some(fn_name) => chosen(old(self)@, variant as int) matches Some(option)
                    && fn_name@ == option.fn_name_on_choose && final(self)@ == (MenuView {
                    current_menu: option.redirect_on_page,
                    ..old(self)@
                }),
                None => chosen(old(self)@, variant as int) is None && final(self)@ == old(self)@,
            },
    {
        let (fn_name, redirect) = match self.current_page() {
            None => {
                return None;
            },
            Some(page) => {
                if variant < 1 || variant > page.options.len() {
                    return None;
                }
                let option = &page.options[variant - 1];
                (option.fn_name_on_choose.clone(), option.redirect_on_page.clone())
            },
        };
        self.current_menu = redirect;
        assert(self@.pages =~= old(self)@.pages);
        Some(fn_name)
    }
}

/// The page that the menu of the program opens with.
pub open spec fn main_page() -> PageView {
    PageView {
        name: "Main"@,
        description: "Please, choose your role:"@,
        options: seq![
            OptionView {
                name: "Passenger"@,
                fn_name_on_choose: "client_mode"@,
                redirect_on_page: "Main"@,
            },
            OptionView {
                name: "Distributor"@,
                fn_name_on_choose: "server_mode"@,
                redirect_on_page: "Main"@,
            },
            OptionView { name: "Exit"@, fn_name_on_choose: "exit"@, redirect_on_page: ""@ },
        ],
        is_start_menu: true,
    }
}

/// The menu of the program: one page, on which the role is chosen.
pub fn build_menu() -> (menu: CLMenu)
    ensures
        menu.wf(),
        menu@ == (MenuView {
            pages: Map::<Seq<char>, PageView>::empty().insert("Main"@, main_page()),
            start_menu: "Main"@,
            current_menu: Seq::<char>::empty(),
        }),
{
    let mut menu = CLMenu::new();

    let mut menu_main_page = CLMenuPage::new("Main", "Please, choose your role:", true);
    menu_main_page.add(CLPageOption::new_with_closure("Passenger", "Main", "client_mode"));
    menu_main_page.add(CLPageOption::new_with_closure("Distributor", "Main", "server_mode"));
    menu_main_page.add(CLPageOption::new_with_closure("Exit", "", "exit"));
    assert(menu_main_page@.options =~= main_page().options);
    menu.add_menu(menu_main_page);

    menu
}

} // verus!
