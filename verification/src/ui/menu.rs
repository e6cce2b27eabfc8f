//! The ROM menu: a list of categories and, beside it, the ROMs of the
//! highlighted category.
use vstd::prelude::*;

use vstd::string::StringSliceAdditionalSpecFns;

verus! {

/// The list that takes the keys.
#[derive(Clone, Copy, PartialEq, Eq, Structural)]
pub enum Side {
    Category,
    ROM,
}

/// The keys the menu tells apart.
#[derive(Clone, Copy, PartialEq, Eq, Structural)]
pub enum MenuKey {
    Up,
    Down,
    Left,
    Right,
    Enter,
    Backspace,
    Other,
}

/// What the menu holds, as plain values.
pub struct MenuView {
    pub categories: Seq<Seq<char>>,
    /// `roms[c]` lists the ROM paths of category `c`.
    pub roms: Seq<Seq<Seq<char>>>,
    pub category: int,
    pub selected: Option<int>,
    pub side: Side,
}

impl MenuView {
    /// One ROM list per category; the highlighted category exists when there
    /// are any; a ROM is highlighted exactly while the ROM list has the keys,
    /// and it is the first or one of the list.
    pub open spec fn wf(self) -> bool {
        &&& self.categories.len() == self.roms.len()
        &&& if self.categories.len() > 0 {
            0 <= self.category < self.categories.len()
        } else {
            self.category == 0
        }
        &&& match self.side {
            Side::Category => self.selected is None,
            Side::ROM => self.selected matches Some(i) && (i == 0 || (self.category
                < self.roms.len() && 0 <= i < self.roms[self.category].len())),
        }
    }

    /// The inputs on which the menu runs its update to the end: moving down
    /// needs a list to move in, and choosing needs a ROM to choose.
    pub open spec fn update_ok(self, key: MenuKey) -> bool {
        match self.side {
            Side::Category => key == MenuKey::Down ==> self.categories.len() > 0,
            Side::ROM => {
                &&& key == MenuKey::Down ==> (self.selected is Some ==> self.category
                    < self.roms.len() && self.roms[self.category].len() > 0)
                &&& key == MenuKey::Enter ==> (self.selected matches Some(i) && self.category
                    < self.roms.len() && 0 <= i < self.roms[self.category].len())
            },
        }
    }

    /// The menu after `key`.
    pub open spec fn updated(self, key: MenuKey) -> MenuView {
        match self.side {
            Side::Category => if key == MenuKey::Up {
                MenuView { category: if self.category > 0 { self.category - 1 } else { 0 }, ..self }
            } else if key == MenuKey::Down {
                if self.category < self.categories.len() - 1 {
                    MenuView { category: self.category + 1, ..self }
                } else {
                    self
                }
            } else if key == MenuKey::Enter || key == MenuKey::Right {
                MenuView { side: Side::ROM, selected: Some(0), ..self }
            } else {
                self
            },
            Side::ROM => if key == MenuKey::Up {
                MenuView {
                    selected: match self.selected {
                        Some(i) => Some(if i > 0 { i - 1 } else { 0 }),
                        None => None,
                    },
                    ..self
                }
            } else if key == MenuKey::Down {
                match self.selected {
                    Some(i) => if i < self.roms[self.category].len() - 1 {
                        MenuView { selected: Some(i + 1), ..self }
                    } else {
                        self
                    },
                    None => self,
                }
            } else if key == MenuKey::Backspace || key == MenuKey::Left {
                MenuView { side: Side::Category, selected: None, ..self }
            } else {
                self
            },
        }
    }

    /// The ROM that `key` starts: Enter on the ROM list chooses the
    /// highlighted ROM.
    pub open spec fn chosen(self, key: MenuKey) -> Option<Seq<char>> {
        if self.side == Side::ROM && key == MenuKey::Enter {
            Some(self.roms[self.category][self.selected->0])
        } else {
            None
        }
    }
}

/// Every key the menu can take keeps it in order: the highlighted category
/// stays in the list of categories, and a highlighted ROM stays in the list of
/// its category (or is the first entry of an empty one).
pub proof fn lemma_menu_update_keeps_order(m: MenuView, key: MenuKey)
    requires
        m.wf(),
        m.update_ok(key),
    ensures
        m.updated(key).wf(),
        m.updated(key).categories == m.categories,
        m.updated(key).roms == m.roms,
{
}

/// How each key moves the menu. On the category list: Up moves the highlight
/// one category up (staying on the first), Down one down (staying on the
/// last), Enter and Right hand the keys to the ROM list with its first ROM
/// highlighted. On the ROM list: Up and Down move the highlighted ROM one up
/// or down within the list, Enter chooses the highlighted ROM and changes
/// nothing, Left and Backspace hand the keys back to the category list. No
/// key changes the lists, and only Enter on the ROM list chooses a ROM.
pub proof fn lemma_menu_moves(m: MenuView)
    requires
        m.wf(),
    ensures
        m.side == Side::Category ==> {
            &&& m.category > 0 ==> m.updated(MenuKey::Up).category == m.category - 1
            &&& m.category == 0 ==> m.updated(MenuKey::Up).category == 0
            &&& m.category + 1 < m.categories.len() ==> m.updated(MenuKey::Down).category == m.category
                + 1
            &&& m.category + 1 >= m.categories.len() ==> m.updated(MenuKey::Down).category
                == m.category
            &&& m.updated(MenuKey::Up).side == Side::Category
            &&& m.updated(MenuKey::Down).side == Side::Category
            &&& m.updated(MenuKey::Enter).side == Side::ROM
            &&& m.updated(MenuKey::Enter).selected == Some(0int)
            &&& m.updated(MenuKey::Enter).category == m.category
            &&& m.updated(MenuKey::Right).side == Side::ROM
            &&& m.updated(MenuKey::Right).selected == Some(0int)
            &&& m.updated(MenuKey::Right).category == m.category
            &&& m.updated(MenuKey::Left) == m
            &&& m.updated(MenuKey::Backspace) == m
            &&& m.updated(MenuKey::Other) == m
            &&& m.chosen(MenuKey::Enter) is None
        },
        m.side == Side::ROM ==> {
            let i = m.selected->0;
            let len = m.roms[m.category].len();
            &&& i > 0 ==> m.updated(MenuKey::Up).selected == Some(i - 1)
            &&& i == 0 ==> m.updated(MenuKey::Up).selected == Some(0int)
            &&& i + 1 < len ==> m.updated(MenuKey::Down).selected == Some(i + 1)
            &&& i + 1 >= len ==> m.updated(MenuKey::Down).selected == Some(i)
            &&& m.updated(MenuKey::Up).category == m.category
            &&& m.updated(MenuKey::Down).category == m.category
            &&& m.updated(MenuKey::Up).side == Side::ROM
            &&& m.updated(MenuKey::Down).side == Side::ROM
            &&& m.updated(MenuKey::Enter) == m
            &&& m.chosen(MenuKey::Enter) == Some(m.roms[m.category][i])
            &&& m.updated(MenuKey::Left).side == Side::Category
            &&& m.updated(MenuKey::Left).selected is None
            &&& m.updated(MenuKey::Left).category == m.category
            &&& m.updated(MenuKey::Backspace).side == Side::Category
            &&& m.updated(MenuKey::Backspace).selected is None
            &&& m.updated(MenuKey::Backspace).category == m.category
            &&& m.updated(MenuKey::Right) == m
            &&& m.updated(MenuKey::Other) == m
        },
        forall|key: MenuKey|
            #![trigger m.updated(key)]
            m.updated(key).categories == m.categories && m.updated(key).roms == m.roms,
        forall|key: MenuKey| key != MenuKey::Enter ==> #[trigger] m.chosen(key) is None,
{
}

/// Whether a file extension marks a ROM: its text is `ch8` (the bytes
/// `0x63 0x68 0x38` in UTF-8).
pub fn is_rom_extension(extension: &str) -> (rom: bool)
    ensures
        rom == (extension.spec_bytes() == seq![0x63u8, 0x68u8, 0x38u8]),
{
    let bytes = extension.as_bytes();
    let rom = bytes.len() == 3 && bytes[0] == 0x63 && bytes[1] == 0x68 && bytes[2] == 0x38;
    assert(rom ==> bytes@ =~= seq![0x63u8, 0x68u8, 0x38u8]);
    rom
}

/// The ROM menu.
pub struct Menu {
    rom_categories: Vec<String>,
    roms: Vec<Vec<String>>,
    category: usize,
    selected_rom: Option<usize>,
    interactable_side: Side,
}

impl View for Menu {
    type V = MenuView;

    closed spec fn view(&self) -> MenuView {
        MenuView {
            categories: Seq::new(self.rom_categories@.len(), |c: int| self.rom_categories@[c]@),
            roms: Seq::new(
                self.roms@.len(),
                |c: int| Seq::new(self.roms@[c]@.len(), |r: int| self.roms@[c]@[r]@),
            ),
            category: self.category as int,
            selected: match self.selected_rom {
                Some(i) => Some(i as int),
                None => None,
            },
            side: self.interactable_side,
        }
    }
}

impl Menu {
    /// A menu over `rom_categories`, where `roms[c]` are the ROM paths of
    /// category `c`; the first category is highlighted.
    pub fn new(rom_categories: Vec<String>, roms: Vec<Vec<String>>) -> (m: Menu)
        requires
            rom_categories@.len() == roms@.len(),
        ensures
            m@.wf(),
            m@.categories == Seq::new(rom_categories@.len(), |c: int| rom_categories@[c]@),
            m@.roms == Seq::new(
                roms@.len(),
                |c: int| Seq::new(roms@[c]@.len(), |r: int| roms@[c]@[r]@),
            ),
            m@.category == 0,
            m@.selected is None,
            m@.side == Side::Category,
    {
        Menu { rom_categories, roms, category: 0, selected_rom: None, interactable_side: Side::Category }
    }

    /// Handles a key; returns the ROM to start, if the key chose one.
    pub fn update(&mut self, key: MenuKey) -> (rom: Option<String>)
        requires
            old(self)@.wf(),
            old(self)@.update_ok(key),
        ensures
            final(self)@.wf(),
            final(self)@ == old(self)@.updated(key),
            rom matches Some(r) ==> old(self)@.chosen(key) == Some(r@),
            rom is None ==> old(self)@.chosen(key) is None,
    {
        match self.interactable_side {
            Side::Category => self.update_category(key),
            Side::ROM => return self.update_roms(key),
        }
        None
    }

    /// Whether `update(key)` runs to its end.
    pub fn can_update(&self, key: MenuKey) -> (ok: bool)
        requires
            self@.wf(),
        ensures
            ok == self@.update_ok(key),
    {
        match self.interactable_side {
            Side::Category => key != MenuKey::Down || self.rom_categories.len() > 0,
            Side::ROM => {
                let fits = match self.selected_rom {
                    Some(i) => self.category < self.roms.len() && i < self.roms[self.category].len(),
                    None => false,
                };
                let nonempty = self.category < self.roms.len() && self.roms[self.category].len()
                    > 0;
                (key != MenuKey::Down || self.selected_rom.is_none() || nonempty) && (key
                    != MenuKey::Enter || fits)
            },
        }
    }

    fn update_category(&mut self, key: MenuKey)
        requires
            old(self)@.wf(),
            old(self)@.side == Side::Category,
            old(self)@.update_ok(key),
        ensures
            final(self)@.wf(),
            final(self)@ == old(self)@.updated(key),
    {
        match key {
            MenuKey::Up => self.category = self.category.saturating_sub(1),
            MenuKey::Down => {
                if self.category < self.rom_categories.len() - 1 {
                    self.category = self.category.saturating_add(1);
                }
            },
            MenuKey::Enter | MenuKey::Right => {
                self.interactable_side = Side::ROM;
                self.selected_rom = Some(0);
            },
            _ => {},
        }
    }

    fn update_roms(&mut self, key: MenuKey) -> (rom: Option<String>)
        requires
            old(self)@.wf(),
            old(self)@.side == Side::ROM,
            old(self)@.update_ok(key),
        ensures
            final(self)@.wf(),
            final(self)@ == old(self)@.updated(key),
            rom matches Some(r) ==> old(self)@.chosen(key) == Some(r@),
            rom is None ==> old(self)@.chosen(key) is None,
    {
        match key {
            MenuKey::Up => {
                self.selected_rom = match self.selected_rom {
                    Some(i) => Some(i.saturating_sub(1)),
                    None => None,
                };
            },
            MenuKey::Down => {
                let below = match self.selected_rom {
                    Some(i) => i < self.roms[self.category].len() - 1,
                    None => false,
                };
                if below {
                    self.selected_rom = match self.selected_rom {
                        Some(i) => Some(i.saturating_add(1)),
                        None => None,
                    };
                }
            },
            MenuKey::Enter => {
                let i = self.selected_rom.unwrap();
                return Some(self.roms[self.category][i].clone());
            },
            MenuKey::Backspace | MenuKey::Left => {
                self.interactable_side = Side::Category;
                self.selected_rom = None;
            },
            _ => {},
        }
        None
    }

    /// The category names.
    pub fn rom_categories(&self) -> (c: &Vec<String>)
        ensures
            c@.len() == self@.categories.len(),
            forall|k: int| 0 <= k < c@.len() ==> #[trigger] c@[k]@ == self@.categories[k],
    {
        &self.rom_categories
    }

    /// The ROM paths, one list per category.
    pub fn roms(&self) -> (r: &Vec<Vec<String>>)
        ensures
            r@.len() == self@.roms.len(),
            forall|c: int| 0 <= c < r@.len() ==> #[trigger] r@[c]@.len() == self@.roms[c].len(),
            forall|c: int, k: int|
                0 <= c < r@.len() && 0 <= k < r@[c]@.len() ==> #[trigger] r@[c]@[k]@
                    == self@.roms[c][k],
    {
        &self.roms
    }

    /// The highlighted category.
    pub fn category(&self) -> (c: usize)
        ensures
            c == self@.category,
    {
        self.category
    }

    /// The highlighted ROM, while the ROM list has the keys.
    pub fn selected_rom(&self) -> (s: Option<usize>)
        ensures
            s matches Some(i) ==> self@.selected == Some(i as int),
            s is None ==> self@.selected is None,
    {
        self.selected_rom
    }
}

} // verus!
