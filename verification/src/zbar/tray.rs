//! The system tray: items, their icons and tooltips, and the bookkeeping of a
//! status-notifier watcher and host.

use vstd::prelude::*;
use vstd::string::*;
use vstd::utf8::*;

use crate::numeral;
use crate::pathname;
use crate::sorting;
use crate::text;
use crate::textmap::TextMap;

verus! {

// ---------------------------------------------------------------------------
// Items
// ---------------------------------------------------------------------------

/// The text of an item's tooltip.
#[derive(Debug, PartialEq, Eq)]
pub struct Tooltip {
    pub title: String,
    pub description: String,
}

impl Tooltip {
    /// Whether there is nothing to show.
    pub fn is_empty(&self) -> (r: bool)
        ensures
            r == (self.title@.len() == 0 && self.description@.len() == 0),
    {
        self.title.as_str().is_empty() && self.description.as_str().is_empty()
    }
}

impl Clone for Tooltip {
    fn clone(&self) -> (r: Self)
        ensures
            r == *self,
    {
        Tooltip { title: self.title.clone(), description: self.description.clone() }
    }
}

/// The texts of an optional tooltip.
pub open spec fn tooltip_text(o: Option<Tooltip>) -> Option<(Seq<char>, Seq<char>)> {
    match o {
        Some(t) => Some((t.title@, t.description@)),
        None => None,
    }
}

fn same_tooltip(a: &Option<Tooltip>, b: &Option<Tooltip>) -> (r: bool)
    ensures
        r == (tooltip_text(*a) == tooltip_text(*b)),
{
    match (a, b) {
        (Some(x), Some(y)) => text::str_eq(x.title.as_str(), y.title.as_str()) && text::str_eq(
            x.description.as_str(),
            y.description.as_str(),
        ),
        (None, None) => true,
        _ => false,
    }
}

/// How present an item wants to be.
#[derive(Clone, Copy, Debug, PartialEq, Eq, Structural)]
pub enum ItemStatus {
    Active,
    Passive,
    NeedsAttention,
}

impl Default for ItemStatus {
    fn default() -> (r: Self)
        ensures
            r == ItemStatus::Active,
    {
        ItemStatus::Active
    }
}

/// The status that a name stands for; unknown names mean active.
pub open spec fn status_of(s: Seq<char>) -> ItemStatus {
    if s == "Passive"@ {
        ItemStatus::Passive
    } else if s == "NeedsAttention"@ {
        ItemStatus::NeedsAttention
    } else {
        ItemStatus::Active
    }
}

impl ItemStatus {
    pub fn from_str(s: &str) -> (r: Self)
        ensures
            r == status_of(s@),
    {
        if text::str_eq(s, "Passive") {
            ItemStatus::Passive
        } else if text::str_eq(s, "NeedsAttention") {
            ItemStatus::NeedsAttention
        } else {
            ItemStatus::Active
        }
    }
}

/// One item. Icons are loaded images, known by the number that they got when
/// they were loaded.
pub struct TrayItem {
    pub icon: Option<u64>,
    pub status: ItemStatus,
    pub tooltip: Option<Tooltip>,
}

/// What the tray is told.
pub enum TrayMsg {
    Add { addr: String, icon: Option<u64>, status: ItemStatus, tooltip: Option<Tooltip> },
    UpdateIcon(String, Option<u64>),
    UpdateStatus(String, ItemStatus),
    UpdateTooltip(String, Option<Tooltip>),
    Remove(String),
    CloseMenu,
    /// A menu has been fetched and is ready to be shown.
    MenuReady { addr: String },
}

/// What the tray does about a message.
#[derive(Clone, Copy, Debug, PartialEq, Eq, Structural)]
pub enum TrayAction {
    Nothing,
    /// Paint the tray again.
    Repaint,
    /// Close the menu that is open, if there is one.
    CloseMenu,
    /// Close the menu that is open, if there is one, and open the new one.
    OpenMenu,
}

/// The items of the tray.
pub type Items = Map<Seq<char>, TrayItem>;

/// What a message does to the items, and whether the tray has to be painted
/// again. Updates of items that are not there, and updates that change nothing,
/// do not count.
pub open spec fn items_after(items: Items, msg: TrayMsg) -> (Items, bool) {
    match msg {
        TrayMsg::Add { addr, icon, status, tooltip } => (
            items.insert(addr@, TrayItem { icon, status, tooltip }),
            true,
        ),
        TrayMsg::UpdateIcon(addr, icon) => if items.contains_key(addr@) && items[addr@].icon
            != icon {
            (items.insert(addr@, TrayItem { icon, ..items[addr@] }), true)
        } else {
            (items, false)
        },
        TrayMsg::UpdateStatus(addr, status) => if items.contains_key(addr@) && items[addr@].status
            != status {
            (items.insert(addr@, TrayItem { status, ..items[addr@] }), true)
        } else {
            (items, false)
        },
        TrayMsg::UpdateTooltip(addr, tooltip) => if items.contains_key(addr@) && tooltip_text(
            items[addr@].tooltip,
        ) != tooltip_text(tooltip) {
            (items.insert(addr@, TrayItem { tooltip, ..items[addr@] }), true)
        } else {
            (items, false)
        },
        TrayMsg::Remove(addr) => (items.remove(addr@), items.contains_key(addr@)),
        TrayMsg::CloseMenu => (items, false),
        TrayMsg::MenuReady { addr } => (items, false),
    }
}

/// The tray: its items, and the item whose menu is open.
pub struct TrayModule {
    pub items: TextMap<TrayItem>,
    pub open_menu: Option<String>,
}

fn same_icon(a: Option<u64>, b: Option<u64>) -> (r: bool)
    ensures
        r == (a == b),
{
    match (a, b) {
        (Some(x), Some(y)) => x == y,
        (None, None) => true,
        _ => false,
    }
}

impl TrayModule {
    pub open spec fn wf(&self) -> bool {
        self.items.wf()
    }

    /// An empty tray.
    pub fn new() -> (r: Self)
        ensures
            r.wf(),
            r.items@ == Items::empty(),
            r.open_menu is None,
    {
        TrayModule { items: TextMap::new(), open_menu: None }
    }

    /// Takes in a message. A menu that becomes ready while it is open is closed
    /// instead: the second click on an item toggles.
    pub fn apply(&mut self, msg: TrayMsg) -> (r: TrayAction)
        requires
            old(self).wf(),
        ensures
            final(self).wf(),
            final(self).items@ == items_after(old(self).items@, msg).0,
            match msg {
                TrayMsg::CloseMenu => r == TrayAction::CloseMenu && final(self).open_menu is None,
                TrayMsg::MenuReady { addr } => final(self).open_menu is None && r == (if text::opt(
                    old(self).open_menu,
                ) == Some(addr@) {
                    TrayAction::CloseMenu
                } else {
                    TrayAction::OpenMenu
                }),
                _ => final(self).open_menu == old(self).open_menu && r == (if items_after(
                    old(self).items@,
                    msg,
                ).1 {
                    TrayAction::Repaint
                } else {
                    TrayAction::Nothing
                }),
            },
    {
        match msg {
            TrayMsg::Add { addr, icon, status, tooltip } => {
                self.items.insert(addr, TrayItem { icon, status, tooltip });
                TrayAction::Repaint
            },
            TrayMsg::UpdateIcon(addr, icon) => {
                let changes = match self.items.get(addr.as_str()) {
                    Some(item) => !same_icon(item.icon, icon),
                    None => false,
                };
                if changes {
                    let mut item = self.items.remove(addr.as_str()).unwrap();
                    item.icon = icon;
                    self.items.insert(addr, item);
                    proof {
                        assert(self.items@ =~= items_after(old(self).items@, msg).0);
                    }
                    TrayAction::Repaint
                } else {
                    TrayAction::Nothing
                }
            },
            TrayMsg::UpdateStatus(addr, status) => {
                let changes = match self.items.get(addr.as_str()) {
                    Some(item) => item.status != status,
                    None => false,
                };
                if changes {
                    let mut item = self.items.remove(addr.as_str()).unwrap();
                    item.status = status;
                    self.items.insert(addr, item);
                    proof {
                        assert(self.items@ =~= items_after(old(self).items@, msg).0);
                    }
                    TrayAction::Repaint
                } else {
                    TrayAction::Nothing
                }
            },
            TrayMsg::UpdateTooltip(addr, tooltip) => {
                let changes = match self.items.get(addr.as_str()) {
                    Some(item) => !same_tooltip(&item.tooltip, &tooltip),
                    None => false,
                };
                if changes {
                    let mut item = self.items.remove(addr.as_str()).unwrap();
                    item.tooltip = tooltip;
                    self.items.insert(addr, item);
                    proof {
                        assert(self.items@ =~= items_after(old(self).items@, msg).0);
                    }
                    TrayAction::Repaint
                } else {
                    TrayAction::Nothing
                }
            },
            TrayMsg::Remove(addr) => {
                match self.items.remove(addr.as_str()) {
                    Some(_) => TrayAction::Repaint,
                    None => TrayAction::Nothing,
                }
            },
            TrayMsg::CloseMenu => {
                self.open_menu = None;
                TrayAction::CloseMenu
            },
            TrayMsg::MenuReady { addr } => {
                let open = match &self.open_menu {
                    Some(a) => text::str_eq(a.as_str(), addr.as_str()),
                    None => false,
                };
                self.open_menu = None;
                if open {
                    TrayAction::CloseMenu
                } else {
                    TrayAction::OpenMenu
                }
            },
        }
    }

    /// The menu of an item has been opened.
    pub fn menu_opened(&mut self, addr: String)
        ensures
            final(self).open_menu == Some(addr),
            final(self).items == old(self).items,
    {
        self.open_menu = Some(addr);
    }

    /// How item number `ix`, in the order of the addresses, is painted: `None`
    /// for a passive item, which is hidden.
    pub fn cell(&self, ix: usize) -> (r: Option<TrayCell>)
        requires
            self.wf(),
            ix < self.items.keys().len(),
        ensures
            r == cell_of(self.items@[self.items.keys()[ix as int]]),
    {
        let item = self.items.value_at(ix);
        if item.status == ItemStatus::Passive {
            return None;
        }
        let has_tooltip = match &item.tooltip {
            Some(t) => !t.is_empty(),
            None => false,
        };
        Some(
            TrayCell {
                icon: item.icon,
                has_tooltip,
                attention: item.status == ItemStatus::NeedsAttention,
            },
        )
    }
}

/// How an item is painted.
#[derive(Clone, Copy, Debug, PartialEq, Eq)]
pub struct TrayCell {
    pub icon: Option<u64>,
    pub has_tooltip: bool,
    pub attention: bool,
}

/// The cell of an item.
pub open spec fn cell_of(item: TrayItem) -> Option<TrayCell> {
    if item.status == ItemStatus::Passive {
        None
    } else {
        Some(
            TrayCell {
                icon: item.icon,
                has_tooltip: item.tooltip matches Some(t) && !(t.title@.len() == 0
                    && t.description@.len() == 0),
                attention: item.status == ItemStatus::NeedsAttention,
            },
        )
    }
}

/// Telling the tray the same thing twice changes nothing and paints nothing
/// the second time.
pub proof fn law_repeated_update_is_silent(
    items: Items,
    addr: String,
    icon: Option<u64>,
    status: ItemStatus,
    tooltip: Option<Tooltip>,
)
    ensures
        ({
            let m = TrayMsg::UpdateIcon(addr, icon);
            let n = items_after(items, m).0;
            items_after(n, m) == (n, false)
        }),
        ({
            let m = TrayMsg::UpdateStatus(addr, status);
            let n = items_after(items, m).0;
            items_after(n, m) == (n, false)
        }),
        ({
            let m = TrayMsg::UpdateTooltip(addr, tooltip);
            let n = items_after(items, m).0;
            items_after(n, m) == (n, false)
        }),
        ({
            let m = TrayMsg::Remove(addr);
            let n = items_after(items, m).0;
            items_after(n, m) == (n, false)
        }),
{
    let n = items.remove(addr@);
    assert(n.remove(addr@) =~= n);
}

// ---------------------------------------------------------------------------
// Addresses
// ---------------------------------------------------------------------------

/// Bus name and object path of an item's address. An address without a path
/// has the default one.
pub open spec fn address_parts(a: Seq<char>) -> (Seq<char>, Seq<char>) {
    match text::index_of_char(a, '/') {
        Some(i) => (a.take(i), a.skip(i)),
        None => (a, "/StatusNotifierItem"@),
    }
}

/// Splits an item's address into bus name and object path.
pub fn parse_address(address: &str) -> (r: (&str, &str))
    ensures
        (r.0@, r.1@) == address_parts(address@),
{
    let chars = text::chars_of(address);
    match text::position_of(chars.as_slice(), '/') {
        Some(i) => {
            let head = address.substring_char(0, i);
            let tail = address.substring_char(i, chars.len());
            proof {
                assert(head@ =~= address@.take(i as int));
                assert(tail@ =~= address@.skip(i as int));
            }
            (head, tail)
        },
        None => (address, "/StatusNotifierItem"),
    }
}

/// The two parts of an address with a path make up the address again.
pub proof fn law_address_parts_join(a: Seq<char>)
    requires
        a.contains('/'),
    ensures
        address_parts(a).0 + address_parts(a).1 == a,
        address_parts(a).1.len() > 0,
        address_parts(a).1[0] == '/',
        !address_parts(a).0.contains('/'),
{
    text::lemma_index_of_char(a, '/');
    let i = text::index_of_char(a, '/')->0;
    assert(a.take(i) + a.skip(i) =~= a);
}

/// The name under which a service is registered: a bare object path belongs to
/// the bus name that sent it, if that is known.
pub open spec fn registered_name(service: Seq<char>, sender: Option<Seq<char>>) -> Seq<char> {
    if text::starts_with(service, "/"@) && sender is Some {
        sender->0 + service
    } else {
        service
    }
}

/// The address of a registered item: its name, with the default path if it has none.
pub open spec fn item_address(name: Seq<char>) -> Seq<char> {
    if name.contains('/') {
        name
    } else {
        name + "/StatusNotifierItem"@
    }
}

/// Resolves the name under which a service registers.
pub fn resolve_sender(service: &str, sender: Option<&str>) -> (r: String)
    ensures
        r@ == registered_name(service@, text::opt_str(sender)),
{
    if text::str_starts_with(service, "/") {
        if let Some(s) = sender {
            return text::concat2(s, service);
        }
    }
    service.to_owned()
}

/// The bus name of the host run by process `pid`.
pub fn host_name(pid: u32) -> (r: String)
    ensures
        r@ == "org.freedesktop.StatusNotifierHost-"@ + numeral::decimal(pid as nat),
{
    let mut s = "org.freedesktop.StatusNotifierHost-".to_owned();
    numeral::push_decimal(&mut s, pid as u64);
    s
}

// ---------------------------------------------------------------------------
// Watcher
// ---------------------------------------------------------------------------

/// Registered items and hosts, each with the bus name that owns it.
pub struct WatcherState {
    pub items: TextMap<String>,
    pub hosts: TextMap<String>,
}

/// Of the given keys, those that `owner` owns, in order.
pub open spec fn owned_by(
    keys: Seq<Seq<char>>,
    m: Map<Seq<char>, String>,
    owner: Seq<char>,
) -> Seq<Seq<char>>
    decreases keys.len(),
{
    if keys.len() == 0 {
        Seq::empty()
    } else {
        let rest = owned_by(keys.drop_last(), m, owner);
        if m[keys.last()]@ == owner {
            rest.push(keys.last())
        } else {
            rest
        }
    }
}

/// The entries that `owner` does not own.
pub open spec fn not_owned_by(m: Map<Seq<char>, String>, owner: Seq<char>) -> Map<
    Seq<char>,
    String,
> {
    m.restrict(Set::new(|k: Seq<char>| m.contains_key(k) && m[k]@ != owner))
}

fn owned_keys(m: &TextMap<String>, owner: &str) -> (r: Vec<String>)
    requires
        m.wf(),
    ensures
        text::views(r@) == owned_by(m.keys(), m@, owner@),
{
    let mut out: Vec<String> = Vec::new();
    let mut i: usize = 0;
    proof {
        assert(text::views(out@) =~= owned_by(m.keys().take(0), m@, owner@));
    }
    while i < m.len()
        invariant
            m.wf(),
            i <= m.keys().len(),
            text::views(out@) == owned_by(m.keys().take(i as int), m@, owner@),
        decreases m.keys().len() - i,
    {
        let ghost had = text::views(out@);
        proof {
            assert(m.keys().take(i + 1).drop_last() == m.keys().take(i as int));
        }
        if text::str_eq(m.value_at(i).as_str(), owner) {
            out.push(m.key_at(i).clone());
            proof {
                assert(text::views(out@) =~= had.push(m.keys()[i as int]));
            }
        }
        i = i + 1;
    }
    proof {
        assert(m.keys().take(i as int) == m.keys());
    }
    out
}

proof fn lemma_owned_by(
    keys: Seq<Seq<char>>,
    m: Map<Seq<char>, String>,
    owner: Seq<char>,
    k: Seq<char>,
)
    ensures
        owned_by(keys, m, owner).contains(k) <==> keys.contains(k) && m[k]@ == owner,
    decreases keys.len(),
{
    if keys.len() > 0 {
        let t = keys.drop_last();
        lemma_owned_by(t, m, owner, k);
        let rest = owned_by(t, m, owner);
        assert(keys == t.push(keys.last()));
        if t.contains(k) {
            let i = choose|i: int| 0 <= i < t.len() && t[i] == k;
            assert(keys[i] == k);
        }
        if keys.contains(k) {
            let i = choose|i: int| 0 <= i < keys.len() && keys[i] == k;
            if i < t.len() {
                assert(t[i] == k);
            }
        }
        if m[keys.last()]@ == owner {
            let n = rest.push(keys.last());
            if rest.contains(k) {
                let i = choose|i: int| 0 <= i < rest.len() && rest[i] == k;
                assert(n[i] == k);
            }
            if n.contains(k) {
                let i = choose|i: int| 0 <= i < n.len() && n[i] == k;
                if i < rest.len() {
                    assert(rest[i] == k);
                }
            }
            assert(n[n.len() - 1] == keys.last());
            assert(keys[keys.len() - 1] == keys.last());
        }
    }
}

fn drop_owned(m: &mut TextMap<String>, owner: &str) -> (r: Vec<String>)
    requires
        old(m).wf(),
    ensures
        final(m).wf(),
        final(m)@ == not_owned_by(old(m)@, owner@),
        text::views(r@) == owned_by(old(m).keys(), old(m)@, owner@),
{
    let gone = owned_keys(m, owner);
    let ghost all = text::views(gone@);
    let mut i: usize = 0;
    while i < gone.len()
        invariant
            m.wf(),
            i <= gone@.len(),
            all == text::views(gone@),
            forall|k: Seq<char>| #[trigger]
                m@.contains_key(k) <==> old(m)@.contains_key(k) && !all.take(i as int).contains(k),
            forall|k: Seq<char>| #[trigger] m@.contains_key(k) ==> m@[k] == old(m)@[k],
        decreases gone.len() - i,
    {
        let ghost before = m@;
        m.remove(gone[i].as_str());
        proof {
            let key = all[i as int];
            assert(key == gone@[i as int]@);
            let was = all.take(i as int);
            let done_now = all.take(i + 1);
            assert(done_now == was.push(key));
            assert forall|k: Seq<char>| done_now.contains(k) <==> was.contains(k) || k == key by {
                if was.contains(k) {
                    let j = choose|j: int| 0 <= j < was.len() && was[j] == k;
                    assert(done_now[j] == k);
                }
                if k == key {
                    assert(done_now[i as int] == k);
                }
            }
            assert forall|k: Seq<char>| #[trigger]
                m@.contains_key(k) <==> old(m)@.contains_key(k) && !done_now.contains(k) by {
                assert(before.contains_key(k) <==> old(m)@.contains_key(k) && !was.contains(k));
            }
            assert forall|k: Seq<char>| #[trigger] m@.contains_key(k) implies m@[k] == old(m)@[k] by {
                assert(before.contains_key(k));
            }
        }
        i = i + 1;
    }
    proof {
        assert(all.take(i as int) == all);
        old(m).lemma_keys();
        assert forall|k: Seq<char>|
            m@.contains_key(k) <==> not_owned_by(old(m)@, owner@).contains_key(k) by {
            lemma_owned_by(old(m).keys(), old(m)@, owner@, k);
            if old(m)@.contains_key(k) {
                assert(old(m).keys().contains(k));
            }
        }
        assert(m@ =~= not_owned_by(old(m)@, owner@));
    }
    gone
}

impl WatcherState {
    pub open spec fn wf(&self) -> bool {
        self.items.wf() && self.hosts.wf()
    }

    /// Nothing registered.
    pub fn new() -> (r: Self)
        ensures
            r.wf(),
            r.items@ == Map::<Seq<char>, String>::empty(),
            r.hosts@ == Map::<Seq<char>, String>::empty(),
    {
        WatcherState { items: TextMap::new(), hosts: TextMap::new() }
    }

    /// Registers a host.
    pub fn register_host(&mut self, service: &str, sender: Option<&str>)
        requires
            old(self).wf(),
        ensures
            final(self).wf(),
            final(self).items == old(self).items,
            owners(final(self).hosts@) == owners(old(self).hosts@).insert(
                registered_name(service@, text::opt_str(sender)),
                owner_text(text::opt_str(sender)),
            ),
    {
        let name = resolve_sender(service, sender);
        self.hosts.insert(name, owner_or_empty(sender));
        proof {
            assert(owners(self.hosts@) =~= owners(old(self).hosts@).insert(
                registered_name(service@, text::opt_str(sender)),
                owner_text(text::opt_str(sender)),
            ));
        }
    }

    /// Registers an item and gives its address.
    pub fn register_item(&mut self, service: &str, sender: Option<&str>) -> (r: String)
        requires
            old(self).wf(),
        ensures
            final(self).wf(),
            final(self).hosts == old(self).hosts,
            r@ == item_address(registered_name(service@, text::opt_str(sender))),
            owners(final(self).items@) == owners(old(self).items@).insert(
                r@,
                owner_text(text::opt_str(sender)),
            ),
    {
        let name = resolve_sender(service, sender);
        let chars = text::chars_of(name.as_str());
        let item = match text::position_of(chars.as_slice(), '/') {
            Some(i) => name,
            None => text::concat2(name.as_str(), "/StatusNotifierItem"),
        };
        self.items.insert(item.clone(), owner_or_empty(sender));
        proof {
            assert(owners(self.items@) =~= owners(old(self).items@).insert(
                item@,
                owner_text(text::opt_str(sender)),
            ));
        }
        item
    }

    /// Whether some host is registered.
    pub fn has_host(&self) -> (r: bool)
        ensures
            r == (self.hosts.keys().len() > 0),
    {
        self.hosts.len() > 0
    }

    /// The owner of a bus name has changed. If it is gone, everything that it
    /// owned is dropped; the addresses of the dropped items are returned.
    pub fn owner_changed(&mut self, old_owner: Option<&str>, new_owner: Option<&str>) -> (r: Vec<
        String,
    >)
        requires
            old(self).wf(),
        ensures
            final(self).wf(),
            match lost_owner(text::opt_str(old_owner), text::opt_str(new_owner)) {
                Some(lost) => {
                    &&& text::views(r@) == owned_by(old(self).items.keys(), old(self).items@, lost)
                    &&& final(self).items@ == not_owned_by(old(self).items@, lost)
                    &&& final(self).hosts@ == not_owned_by(old(self).hosts@, lost)
                },
                None => r@.len() == 0 && *final(self) == *old(self),
            },
    {
        if let Some(n) = new_owner {
            if !n.is_empty() {
                return Vec::new();
            }
        }
        match old_owner {
            Some(lost) => {
                if lost.is_empty() {
                    return Vec::new();
                }
                let gone = drop_owned(&mut self.items, lost);
                drop_owned(&mut self.hosts, lost);
                gone
            },
            None => Vec::new(),
        }
    }
}

/// The owners' names.
pub open spec fn owners(m: Map<Seq<char>, String>) -> Map<Seq<char>, Seq<char>> {
    m.map_values(|s: String| s@)
}

/// The sender's name, empty if it is not known.
pub open spec fn owner_text(sender: Option<Seq<char>>) -> Seq<char> {
    match sender {
        Some(s) => s,
        None => Seq::empty(),
    }
}

fn owner_or_empty(sender: Option<&str>) -> (r: String)
    ensures
        r@ == owner_text(text::opt_str(sender)),
{
    match sender {
        Some(s) => s.to_owned(),
        None => String::new(),
    }
}

/// The bus name that has lost its owner: the old owner's, if there is no new one.
pub open spec fn lost_owner(
    old_owner: Option<Seq<char>>,
    new_owner: Option<Seq<char>>,
) -> Option<Seq<char>> {
    if new_owner matches Some(n) && n.len() > 0 {
        None
    } else {
        match old_owner {
            Some(o) => if o.len() > 0 {
                Some(o)
            } else {
                None
            },
            None => None,
        }
    }
}

/// After a bus name has lost its owner nothing registered is owned by it.
pub proof fn law_lost_owner_owns_nothing(
    m: Map<Seq<char>, String>,
    lost: Seq<char>,
    k: Seq<char>,
)
    requires
        not_owned_by(m, lost).contains_key(k),
    ensures
        not_owned_by(m, lost)[k]@ != lost,
        m.contains_key(k),
        not_owned_by(m, lost)[k] == m[k],
{
}


// ---------------------------------------------------------------------------
// Host session
// ---------------------------------------------------------------------------

/// What the host remembers of an item.
pub struct TrayItemMeta {
    pub menu_path: Option<String>,
    /// The item's own icon directory; it does not change while the item lives.
    pub icon_theme_path: Option<String>,
}

/// What the watcher tells the host.
pub enum WatcherEvent {
    ItemAdded(String),
    ItemRemoved(String),
}

/// What the host does about it.
#[derive(Clone, Copy, Debug, PartialEq, Eq, Structural)]
pub enum HostAction {
    /// The item is known already.
    Nothing,
    /// Fetch the item's properties and show it.
    AddItem,
    /// Take the item off the tray.
    RemoveItem,
}

/// Which way a wheel turned.
#[derive(Debug, Clone, Copy, PartialEq, Eq, Structural)]
pub enum Orientation {
    Vertical,
    Horizontal,
}

impl Orientation {
    /// What the item is told.
    pub fn as_str(&self) -> (r: &'static str)
        ensures
            r@ == (match *self {
                Orientation::Vertical => "vertical"@,
                Orientation::Horizontal => "horizontal"@,
            }),
    {
        match self {
            Orientation::Vertical => "vertical",
            Orientation::Horizontal => "horizontal",
        }
    }
}

/// A click or scroll on an item. Positions are left to the caller.
pub enum ActivateReq {
    Default(String),
    Secondary(String),
    Menu(String),
    Scroll(String, i32, Orientation),
}

/// What to call on an item.
#[derive(Clone, Copy, Debug, PartialEq, Eq, Structural)]
pub enum ItemCall {
    Activate,
    SecondaryActivate,
    Scroll(i32, Orientation),
}

/// What the host does about a request.
pub enum ActivateAction {
    /// The item has no menu.
    Nothing,
    /// Fetch the menu at this object path.
    FetchMenu(String),
    /// Call the item at this bus name and object path.
    Call(String, String, ItemCall),
}

/// The text of an action.
pub enum ActivateView {
    Nothing,
    FetchMenu(Seq<char>),
    Call(Seq<char>, Seq<char>, ItemCall),
}

impl View for ActivateAction {
    type V = ActivateView;

    open spec fn view(&self) -> ActivateView {
        match self {
            ActivateAction::Nothing => ActivateView::Nothing,
            ActivateAction::FetchMenu(p) => ActivateView::FetchMenu(p@),
            ActivateAction::Call(d, p, c) => ActivateView::Call(d@, p@, *c),
        }
    }
}

impl ActivateReq {
    /// The address of the item.
    pub open spec fn address(&self) -> Seq<char> {
        match self {
            ActivateReq::Default(a) => a@,
            ActivateReq::Secondary(a) => a@,
            ActivateReq::Menu(a) => a@,
            ActivateReq::Scroll(a, _, _) => a@,
        }
    }

    pub fn addr(&self) -> (r: &str)
        ensures
            r@ == self.address(),
    {
        match self {
            ActivateReq::Default(a) => a.as_str(),
            ActivateReq::Secondary(a) => a.as_str(),
            ActivateReq::Menu(a) => a.as_str(),
            ActivateReq::Scroll(a, _, _) => a.as_str(),
        }
    }
}

/// What a request asks of the items that are known.
pub open spec fn action_for(
    metas: Map<Seq<char>, TrayItemMeta>,
    req: ActivateReq,
) -> ActivateView {
    let a = req.address();
    let (dest, path) = address_parts(a);
    match req {
        ActivateReq::Menu(_) => if metas.contains_key(a) && metas[a].menu_path is Some {
            ActivateView::FetchMenu(metas[a].menu_path->0@)
        } else {
            ActivateView::Nothing
        },
        ActivateReq::Default(_) => ActivateView::Call(dest, path, ItemCall::Activate),
        ActivateReq::Secondary(_) => ActivateView::Call(dest, path, ItemCall::SecondaryActivate),
        ActivateReq::Scroll(_, d, o) => ActivateView::Call(
            dest,
            path,
            ItemCall::Scroll(d, o),
        ),
    }
}

/// The items that the host shows.
pub struct HostSession {
    pub metas: TextMap<TrayItemMeta>,
}

impl HostSession {
    pub open spec fn wf(&self) -> bool {
        self.metas.wf()
    }

    /// No items yet.
    pub fn new() -> (r: Self)
        ensures
            r.wf(),
            r.metas@ == Map::<Seq<char>, TrayItemMeta>::empty(),
    {
        HostSession { metas: TextMap::new() }
    }

    /// An item's properties have been fetched.
    pub fn item_added(&mut self, addr: String, meta: TrayItemMeta)
        requires
            old(self).wf(),
        ensures
            final(self).wf(),
            final(self).metas@ == old(self).metas@.insert(addr@, meta),
    {
        self.metas.insert(addr, meta);
    }

    /// Takes in an event of the watcher. Items that are known are not added
    /// again; removed items are forgotten.
    pub fn on_event(&mut self, event: &WatcherEvent) -> (r: HostAction)
        requires
            old(self).wf(),
        ensures
            final(self).wf(),
            match event {
                WatcherEvent::ItemAdded(addr) => final(self).metas@ == old(self).metas@ && r == (
                if old(self).metas@.contains_key(addr@) {
                    HostAction::Nothing
                } else {
                    HostAction::AddItem
                }),
                WatcherEvent::ItemRemoved(addr) => r == HostAction::RemoveItem && final(self).metas@
                    == old(self).metas@.remove(addr@),
            },
    {
        match event {
            WatcherEvent::ItemAdded(addr) => if self.metas.contains_key(addr.as_str()) {
                HostAction::Nothing
            } else {
                HostAction::AddItem
            },
            WatcherEvent::ItemRemoved(addr) => {
                self.metas.remove(addr.as_str());
                HostAction::RemoveItem
            },
        }
    }

    /// The items whose icons have to be fetched again when the colours change:
    /// all of them.
    pub fn refetch_targets(&self) -> (r: Vec<String>)
        requires
            self.wf(),
        ensures
            text::views(r@) == self.metas.keys(),
    {
        let mut out: Vec<String> = Vec::new();
        let mut i: usize = 0;
        while i < self.metas.len()
            invariant
                i <= self.metas.keys().len(),
                text::views(out@) == self.metas.keys().take(i as int),
            decreases self.metas.keys().len() - i,
        {
            let ghost had = text::views(out@);
            out.push(self.metas.key_at(i).clone());
            proof {
                assert(text::views(out@) =~= had.push(self.metas.keys()[i as int]));
            }
            i = i + 1;
        }
        proof {
            assert(text::views(out@) =~= self.metas.keys());
        }
        out
    }

    /// What to do about a click or scroll.
    pub fn handle_activate(&self, req: &ActivateReq) -> (r: ActivateAction)
        requires
            self.wf(),
        ensures
            r@ == action_for(self.metas@, *req),
    {
        let addr = req.addr();
        let (dest, path) = parse_address(addr);
        match req {
            ActivateReq::Menu(_) => match self.metas.get(addr) {
                Some(meta) => match &meta.menu_path {
                    Some(p) => ActivateAction::FetchMenu(p.clone()),
                    None => ActivateAction::Nothing,
                },
                None => ActivateAction::Nothing,
            },
            ActivateReq::Default(_) => ActivateAction::Call(
                dest.to_owned(),
                path.to_owned(),
                ItemCall::Activate,
            ),
            ActivateReq::Secondary(_) => ActivateAction::Call(
                dest.to_owned(),
                path.to_owned(),
                ItemCall::SecondaryActivate,
            ),
            ActivateReq::Scroll(_, d, o) => ActivateAction::Call(
                dest.to_owned(),
                path.to_owned(),
                ItemCall::Scroll(*d, *o),
            ),
        }
    }
}

// ---------------------------------------------------------------------------
// Pixmaps
// ---------------------------------------------------------------------------

/// The largest accepted side of an icon.
pub const MAX_ICON_DIM: i32 = 512;

/// The largest accepted icon file, in bytes.
pub const MAX_ICON_BYTES: u64 = 0x40_0000;

/// Pixels in blue, green, red, alpha order.
#[derive(Debug, PartialEq, Eq)]
pub struct Pixmap {
    pub width: u32,
    pub height: u32,
    pub bgra: Vec<u8>,
}

/// Each whole group of four bytes reversed; bytes behind the last whole group
/// are dropped.
pub open spec fn reversed_words(p: Seq<u8>) -> Seq<u8> {
    Seq::new((p.len() / 4 * 4) as nat, |i: int| p[i / 4 * 4 + 3 - i % 4])
}

/// Turns alpha, red, green, blue bytes into blue, green, red, alpha bytes.
pub fn argb_be_to_bgra(pixels: &[u8]) -> (r: Vec<u8>)
    ensures
        r@ == reversed_words(pixels@),
{
    let mut out: Vec<u8> = Vec::new();
    let n: usize = pixels.len() / 4;
    proof {
        assert(pixels.len() == pixels@.len());
    }
    let mut i: usize = 0;
    while i < n
        invariant
            i <= n,
            n == pixels@.len() / 4,
            pixels@.len() <= usize::MAX,
            out@.len() == i * 4,
            forall|k: int| 0 <= k < i * 4 ==> #[trigger] out@[k] == pixels@[k / 4 * 4 + 3 - k % 4],
        decreases n - i,
    {
        out.push(pixels[i * 4 + 3]);
        out.push(pixels[i * 4 + 2]);
        out.push(pixels[i * 4 + 1]);
        out.push(pixels[i * 4]);
        i = i + 1;
    }
    proof {
        assert(out@ =~= reversed_words(pixels@));
    }
    out
}

/// Reversing the bytes of each pixel twice gives the whole pixels back.
pub proof fn law_reversed_twice_is_identity(p: Seq<u8>)
    requires
        p.len() % 4 == 0,
    ensures
        reversed_words(reversed_words(p)) == p,
{
    let q = reversed_words(p);
    assert forall|i: int| 0 <= i < p.len() implies reversed_words(q)[i] == p[i] by {
        let j = i / 4 * 4 + 3 - i % 4;
        assert(0 <= j < q.len());
        assert(j / 4 == i / 4);
        assert(j % 4 == 3 - i % 4);
    }
    assert(reversed_words(q) =~= p);
}

/// The first and the third byte of each whole group of four swapped; bytes
/// behind the last whole group are dropped.
pub open spec fn swapped_ends(p: Seq<u8>) -> Seq<u8> {
    Seq::new(
        (p.len() / 4 * 4) as nat,
        |i: int|
            if i % 4 == 0 {
                p[i + 2]
            } else if i % 4 == 2 {
                p[i - 2]
            } else {
                p[i]
            },
    )
}

/// Turns red, green, blue, alpha bytes into blue, green, red, alpha bytes.
pub fn rgba_to_bgra(pixels: &[u8]) -> (r: Vec<u8>)
    ensures
        r@ == swapped_ends(pixels@),
{
    let mut out: Vec<u8> = Vec::new();
    let n: usize = pixels.len() / 4;
    proof {
        assert(pixels.len() == pixels@.len());
    }
    let mut i: usize = 0;
    while i < n
        invariant
            i <= n,
            n == pixels@.len() / 4,
            pixels@.len() <= usize::MAX,
            out@.len() == i * 4,
            forall|k: int| 0 <= k < i * 4 ==> #[trigger] out@[k] == swapped_ends(pixels@)[k],
        decreases n - i,
    {
        out.push(pixels[i * 4 + 2]);
        out.push(pixels[i * 4 + 1]);
        out.push(pixels[i * 4]);
        out.push(pixels[i * 4 + 3]);
        i = i + 1;
    }
    proof {
        assert(out@ =~= swapped_ends(pixels@));
    }
    out
}

/// The width and the height of the picture that bytes stand for; none where
/// their format is unknown or they are damaged.
pub uninterp spec fn picture_size(bytes: Seq<u8>) -> Option<(u32, u32)>;

/// Calls `image::load_from_memory`, which guesses the format, and
/// `DynamicImage::into_rgba8`.
///
/// Claims that the bytes alone decide whether there is a picture and how large
/// it is, and that it has four bytes for each of its pixels. Which bytes they
/// are is not claimed: the JPEG decoder picks its arithmetic by the processor
/// that it runs on.
#[verifier::external_body]
fn decode_rgba(bytes: &[u8]) -> (r: Option<(u32, u32, Vec<u8>)>)
    ensures
        match r {
            Some(p) => picture_size(bytes@) == Some((p.0, p.1)) && p.2@.len() == p.0 * p.1 * 4,
            None => picture_size(bytes@) is None,
        },
{
    let rgba = image::load_from_memory(bytes).ok()?.into_rgba8();
    Some((rgba.width(), rgba.height(), rgba.into_raw()))
}

/// The picture with these red, green, blue, alpha bytes.
pub fn pixmap_from_rgba(width: u32, height: u32, rgba: &[u8]) -> (r: Pixmap)
    ensures
        r.width == width,
        r.height == height,
        r.bgra@ == swapped_ends(rgba@),
{
    Pixmap { width, height, bgra: rgba_to_bgra(rgba) }
}

/// Whether decoding bytes may give these red, green, blue, alpha bytes.
pub closed spec fn may_decode_to(bytes: &[u8], seen: Option<(u32, u32, Vec<u8>)>) -> bool {
    call_ensures(decode_rgba, (bytes,), seen)
}

/// Decodes a picture, where its format is known and it is not damaged, and
/// puts its bytes in the order in which they are drawn.
pub fn decode_picture(bytes: &[u8]) -> (r: Option<Pixmap>)
    ensures
        match r {
            Some(p) => picture_size(bytes@) == Some((p.width, p.height)) && p.bgra@.len()
                == p.width * p.height * 4,
            None => picture_size(bytes@) is None,
        },
        exists|seen: Option<(u32, u32, Vec<u8>)>| #[trigger]
            may_decode_to(bytes, seen) && match seen {
                Some(p) => r matches Some(q) && q.width == p.0 && q.height == p.1 && q.bgra@
                    == swapped_ends(p.2@),
                None => r is None,
            },
{
    let seen = decode_rgba(bytes);
    assert(may_decode_to(bytes, seen));
    match &seen {
        Some((width, height, rgba)) => {
            proof {
                let n = *width * *height;
                assert((n * 4) / 4 * 4 == n * 4);
            }
            Some(pixmap_from_rgba(*width, *height, rgba.as_slice()))
        },
        None => None,
    }
}

/// Whether a pixmap of these dimensions and bytes can be shown.
pub open spec fn is_pixmap(w: i32, h: i32, len: int) -> bool {
    0 < w <= MAX_ICON_DIM && 0 < h <= MAX_ICON_DIM && len == w * h * 4
}

/// What a pixmap holds.
pub open spec fn pixmap_view(o: Option<Pixmap>) -> Option<(u32, u32, Seq<u8>)> {
    match o {
        Some(p) => Some((p.width, p.height, p.bgra@)),
        None => None,
    }
}

/// The picture of a pixmap, if it can be shown.
pub open spec fn rendered(w: i32, h: i32, pixels: Seq<u8>) -> Option<(u32, u32, Seq<u8>)> {
    if is_pixmap(w, h, pixels.len() as int) {
        Some((w as u32, h as u32, reversed_words(pixels)))
    } else {
        None
    }
}

/// Renders a pixmap.
pub fn render_argb_pixmap(w: i32, h: i32, pixels: &[u8]) -> (r: Option<Pixmap>)
    ensures
        pixmap_view(r) == rendered(w, h, pixels@),
{
    if w <= 0 || h <= 0 {
        return None;
    }
    if w > MAX_ICON_DIM || h > MAX_ICON_DIM {
        return None;
    }
    proof {
        assert(w * h <= 512 * 512) by (nonlinear_arith)
            requires
                0 < w <= 512,
                0 < h <= 512,
        ;
        assert(0 < w * h) by (nonlinear_arith)
            requires
                0 < w,
                0 < h,
        ;
    }
    let expected: u32 = w as u32 * h as u32 * 4;
    if pixels.len() != expected as usize {
        return None;
    }
    Some(Pixmap { width: w as u32, height: h as u32, bgra: argb_be_to_bgra(pixels) })
}

/// The area of a pixmap; negative sides count as nothing.
pub open spec fn area(w: i32, h: i32) -> int {
    (if w < 0 {
        0int
    } else {
        w as int
    }) * (if h < 0 {
        0int
    } else {
        h as int
    })
}

/// The last of the pixmaps with the largest area.
pub open spec fn largest(p: Seq<(i32, i32, Vec<u8>)>) -> int
    decreases p.len(),
{
    if p.len() <= 1 {
        0
    } else {
        let best = largest(p.drop_last());
        if area(p.last().0, p.last().1) >= area(p[best].0, p[best].1) {
            p.len() - 1
        } else {
            best
        }
    }
}

/// What [`largest`] picks: no pixmap has a larger area, and no later one has
/// the same.
pub proof fn law_largest_is_the_last_maximum(p: Seq<(i32, i32, Vec<u8>)>, i: int)
    requires
        0 <= i < p.len(),
    ensures
        0 <= largest(p) < p.len(),
        area(p[i].0, p[i].1) <= area(p[largest(p)].0, p[largest(p)].1),
        i > largest(p) ==> area(p[i].0, p[i].1) < area(p[largest(p)].0, p[largest(p)].1),
    decreases p.len(),
{
    if p.len() > 1 {
        let t = p.drop_last();
        law_largest_is_the_last_maximum(t, 0);
        if i < t.len() {
            law_largest_is_the_last_maximum(t, i);
            assert(t[i] == p[i]);
        }
        assert(t[largest(t)] == p[largest(t)]);
    }
}

fn area_of(w: i32, h: i32) -> (r: u64)
    ensures
        r == area(w, h),
{
    let a: u64 = if w < 0 {
        0
    } else {
        w as u64
    };
    let b: u64 = if h < 0 {
        0
    } else {
        h as u64
    };
    proof {
        assert(a * b <= 0x7fff_ffff * 0x7fff_ffff) by (nonlinear_arith)
            requires
                0 <= a <= 0x7fff_ffff,
                0 <= b <= 0x7fff_ffff,
        ;
    }
    a * b
}

/// Picks the largest pixmap and renders it.
pub fn best_pixmap_from_tuples(pixmaps: &[(i32, i32, Vec<u8>)]) -> (r: Option<Pixmap>)
    ensures
        pixmap_view(r) == (if pixmaps@.len() == 0 {
            None
        } else {
            let p = pixmaps@[largest(pixmaps@)];
            rendered(p.0, p.1, p.2@)
        }),
{
    if pixmaps.len() == 0 {
        return None;
    }
    let mut best: usize = 0;
    let mut i: usize = 1;
    proof {
        assert(pixmaps@.take(1).len() == 1);
    }
    while i < pixmaps.len()
        invariant
            1 <= i <= pixmaps@.len(),
            best < i,
            best == largest(pixmaps@.take(i as int)),
        decreases pixmaps.len() - i,
    {
        proof {
            assert(pixmaps@.take(i + 1).drop_last() == pixmaps@.take(i as int));
        }
        if area_of(pixmaps[i].0, pixmaps[i].1) >= area_of(pixmaps[best].0, pixmaps[best].1) {
            best = i;
        }
        i = i + 1;
    }
    proof {
        assert(pixmaps@.take(i as int) == pixmaps@);
    }
    render_argb_pixmap(pixmaps[best].0, pixmaps[best].1, pixmaps[best].2.as_slice())
}

// ---------------------------------------------------------------------------
// Properties
// ---------------------------------------------------------------------------

/// An item's properties as they came over the bus, each if it was there and of
/// the right type. A tooltip is a structure, of which the fields that are
/// strings are given.
pub struct RawProps {
    pub icon_name: Option<String>,
    pub icon_pixmap: Option<Vec<(i32, i32, Vec<u8>)>>,
    pub icon_theme_path: Option<String>,
    pub status: Option<String>,
    pub menu: Option<String>,
    pub tooltip: Option<Vec<Option<String>>>,
}

/// What the properties say.
pub struct ItemProps {
    pub icon_name: String,
    pub pixmap: Option<Pixmap>,
    pub icon_theme_path: Option<String>,
    pub status: ItemStatus,
    pub menu_path: Option<String>,
    pub tooltip: Option<Tooltip>,
    /// Nothing was said of an icon, so that it has to be asked for by itself.
    pub ask_for_icon: bool,
}

/// The text of an optional string, empty if there is none.
pub open spec fn or_empty(o: Option<String>) -> Seq<char> {
    match o {
        Some(s) => s@,
        None => Seq::empty(),
    }
}

/// The tooltip in a structure: fields two and three of at least four, unless
/// both are empty.
pub open spec fn tooltip_of(fields: Seq<Option<String>>) -> Option<(Seq<char>, Seq<char>)> {
    if fields.len() < 4 || (or_empty(fields[2]).len() == 0 && or_empty(fields[3]).len() == 0) {
        None
    } else {
        Some((or_empty(fields[2]), or_empty(fields[3])))
    }
}

/// The picture in the pixmap property.
pub open spec fn pixmap_of(o: Option<Vec<(i32, i32, Vec<u8>)>>) -> Option<(u32, u32, Seq<u8>)> {
    match o {
        Some(v) => if v@.len() == 0 {
            None
        } else {
            let p = v@[largest(v@)];
            rendered(p.0, p.1, p.2@)
        },
        None => None,
    }
}

fn take_or_empty(o: &Option<String>) -> (r: String)
    ensures
        r@ == or_empty(*o),
{
    match o {
        Some(s) => s.clone(),
        None => String::new(),
    }
}

/// Reads the tooltip structure.
pub fn tooltip_from_structure(fields: &Vec<Option<String>>) -> (r: Option<Tooltip>)
    ensures
        tooltip_text(r) == tooltip_of(fields@),
{
    if fields.len() < 4 {
        return None;
    }
    let tt = Tooltip {
        title: take_or_empty(&fields[2]),
        description: take_or_empty(&fields[3]),
    };
    if tt.is_empty() {
        None
    } else {
        Some(tt)
    }
}

/// Reads an item's properties: an empty icon directory, an empty menu path and
/// the root as menu path mean that there is none.
pub fn read_props(raw: RawProps) -> (r: ItemProps)
    ensures
        r.icon_name@ == or_empty(raw.icon_name),
        pixmap_view(r.pixmap) == pixmap_of(raw.icon_pixmap),
        text::opt(r.icon_theme_path) == (match raw.icon_theme_path {
            Some(s) => if s@.len() == 0 {
                None
            } else {
                Some(s@)
            },
            None => None,
        }),
        r.status == (match raw.status {
            Some(s) => status_of(s@),
            None => ItemStatus::Active,
        }),
        text::opt(r.menu_path) == (match raw.menu {
            Some(s) => if s@.len() == 0 || s@ == "/"@ {
                None
            } else {
                Some(s@)
            },
            None => None,
        }),
        tooltip_text(r.tooltip) == (match raw.tooltip {
            Some(f) => tooltip_of(f@),
            None => None,
        }),
        r.ask_for_icon == (r.pixmap is None && r.icon_name@.len() == 0),
{
    let icon_name = take_or_empty(&raw.icon_name);
    let pixmap = match &raw.icon_pixmap {
        Some(v) => best_pixmap_from_tuples(v.as_slice()),
        None => None,
    };
    let icon_theme_path = match raw.icon_theme_path {
        Some(s) => if s.as_str().is_empty() {
            None
        } else {
            Some(s)
        },
        None => None,
    };
    let status = match &raw.status {
        Some(s) => ItemStatus::from_str(s.as_str()),
        None => ItemStatus::default(),
    };
    let menu_path = match raw.menu {
        Some(s) => if s.as_str().is_empty() || text::str_eq(s.as_str(), "/") {
            None
        } else {
            Some(s)
        },
        None => None,
    };
    let tooltip = match &raw.tooltip {
        Some(f) => tooltip_from_structure(f),
        None => None,
    };
    let ask_for_icon = pixmap.is_none() && icon_name.as_str().is_empty();
    ItemProps { icon_name, pixmap, icon_theme_path, status, menu_path, tooltip, ask_for_icon }
}

// ---------------------------------------------------------------------------
// Icon files
// ---------------------------------------------------------------------------

/// Where to get an icon from.
pub enum IconPlan {
    /// There is no icon.
    Nothing,
    /// The pixels are at hand.
    Pixels(Pixmap),
    /// Load this file.
    File(String),
    /// Load the first of these files that exists; else look for the name below
    /// the directory; else ask the icon theme.
    Search { files: Vec<String>, dir: Option<String> },
}

/// `dir/name.ext`.
pub open spec fn theme_file(dir: Seq<char>, name: Seq<char>, ext: Seq<char>) -> Seq<char> {
    pathname::join(dir, name + "."@ + ext)
}

fn theme_path(dir: &str, name: &str, ext: &str) -> (r: String)
    ensures
        r@ == theme_file(dir@, name@, ext@),
{
    let mut file = name.to_owned();
    file.push_str(".");
    file.push_str(ext);
    pathname::join_path(dir, file.as_str())
}

/// Decides where the icon of an item comes from: its pixels before its name, an
/// absolute name is a file, any other is looked up in the item's own directory
/// before the icon theme.
pub fn resolve_icon(pixmap: Option<Pixmap>, icon_name: &str, theme_dir: Option<&str>) -> (r:
    IconPlan)
    ensures
        match r {
            IconPlan::Pixels(p) => pixmap == Some(p),
            IconPlan::Nothing => pixmap is None && icon_name@.len() == 0,
            IconPlan::File(f) => pixmap is None && text::starts_with(icon_name@, "/"@) && f@
                == icon_name@,
            IconPlan::Search { files, dir } => {
                &&& pixmap is None
                &&& icon_name@.len() > 0
                &&& !text::starts_with(icon_name@, "/"@)
                &&& match text::opt_str(theme_dir) {
                    Some(d) => if d.len() == 0 {
                        dir is None && files@.len() == 0
                    } else {
                        text::opt(dir) == Some(d) && text::views(files@) == seq![
                            theme_file(d, icon_name@, "svg"@),
                            theme_file(d, icon_name@, "svgz"@),
                            theme_file(d, icon_name@, "png"@),
                        ]
                    },
                    None => dir is None && files@.len() == 0,
                }
            },
        },
{
    if let Some(p) = pixmap {
        return IconPlan::Pixels(p);
    }
    if icon_name.is_empty() {
        proof {
            reveal_strlit("/");
        }
        return IconPlan::Nothing;
    }
    if text::str_starts_with(icon_name, "/") {
        return IconPlan::File(icon_name.to_owned());
    }
    let mut files: Vec<String> = Vec::new();
    if let Some(d) = theme_dir {
        if !d.is_empty() {
            files.push(theme_path(d, icon_name, "svg"));
            files.push(theme_path(d, icon_name, "svgz"));
            files.push(theme_path(d, icon_name, "png"));
            proof {
                assert(text::views(files@) =~= seq![
                    theme_file(d@, icon_name@, "svg"@),
                    theme_file(d@, icon_name@, "svgz"@),
                    theme_file(d@, icon_name@, "png"@),
                ]);
            }
            return IconPlan::Search { files, dir: Some(d.to_owned()) };
        }
    }
    IconPlan::Search { files, dir: None }
}

/// Whether a file found below an icon directory is the icon `name`: by its stem,
/// and by an extension that icons have.
pub fn is_icon_file(stem: Option<&str>, extension: Option<&str>, name: &str) -> (r: bool)
    ensures
        r == (text::opt_str(stem) == Some(name@) && (text::opt_str(extension) == Some("svg"@)
            || text::opt_str(extension) == Some("svgz"@) || text::opt_str(extension) == Some(
            "png"@,
        ))),
{
    match (stem, extension) {
        (Some(s), Some(e)) => text::str_eq(s, name) && (text::str_eq(e, "svg") || text::str_eq(
            e,
            "svgz",
        ) || text::str_eq(e, "png")),
        _ => false,
    }
}

/// What an icon file holds.
#[derive(Clone, Copy, Debug, PartialEq, Eq, Structural)]
pub enum IconFormat {
    /// Vector image, to be recoloured.
    Svg,
    Png,
    /// Another bitmap, to be decoded.
    Bitmap,
}

/// What a file extension says of an icon.
pub open spec fn format_of(ext: Seq<char>) -> Option<IconFormat> {
    if ext == "svg"@ || ext == "svgz"@ {
        Some(IconFormat::Svg)
    } else if ext == "png"@ {
        Some(IconFormat::Png)
    } else if ext == "ico"@ || ext == "bmp"@ || ext == "jpg"@ || ext == "jpeg"@ || ext == "gif"@ {
        Some(IconFormat::Bitmap)
    } else {
        None
    }
}

/// How to read an icon file of this size and extension; `None` if it is too
/// large or not an icon.
pub fn icon_format(size: u64, extension: Option<&str>) -> (r: Option<IconFormat>)
    ensures
        r == (match text::opt_str(extension) {
            Some(e) => if size > MAX_ICON_BYTES {
                None
            } else {
                format_of(e)
            },
            None => None,
        }),
{
    if size > MAX_ICON_BYTES {
        return None;
    }
    match extension {
        Some(e) => if text::str_eq(e, "svg") || text::str_eq(e, "svgz") {
            Some(IconFormat::Svg)
        } else if text::str_eq(e, "png") {
            Some(IconFormat::Png)
        } else if text::str_eq(e, "ico") || text::str_eq(e, "bmp") || text::str_eq(e, "jpg")
            || text::str_eq(e, "jpeg") || text::str_eq(e, "gif") {
            Some(IconFormat::Bitmap)
        } else {
            None
        },
        None => None,
    }
}

/// The text of an icon with the dark colours of symbolic icons, one after the
/// other, replaced by `fg`.
pub open spec fn recolored(s: Seq<char>, fg: Seq<char>) -> Seq<char> {
    let a = text::replace(s, "#31363b"@, fg);
    let b = text::replace(a, "#232629"@, fg);
    let c = text::replace(b, "#4d4d4d"@, fg);
    text::replace(c, "#000000"@, fg)
}

fn replace_color(s: Vec<char>, color: &str, fg: &Vec<char>) -> (r: Vec<char>)
    requires
        color@.len() > 0,
    ensures
        r@ == text::replace(s@, color@, fg@),
{
    let from = text::chars_of(color);
    text::replaced(s.as_slice(), from.as_slice(), fg.as_slice())
}

/// Recolours a symbolic icon for a panel whose foreground is `fg_hex`.
pub fn recolor_svg_for_panel(bytes: Vec<u8>, fg_hex: &str) -> (r: Vec<u8>)
    ensures
        r@ == encode_utf8(recolored(text::utf8_lossy(bytes@), fg_hex@)),
{
    let svg = text::from_utf8_lossy(bytes.as_slice());
    let fg = text::chars_of(fg_hex);
    proof {
        reveal_strlit("#31363b");
        reveal_strlit("#232629");
        reveal_strlit("#4d4d4d");
        reveal_strlit("#000000");
    }
    let a = replace_color(text::chars_of(svg.as_str()), "#31363b", &fg);
    let b = replace_color(a, "#232629", &fg);
    let c = replace_color(b, "#4d4d4d", &fg);
    let d = replace_color(c, "#000000", &fg);
    let out = text::string_of(d.as_slice());
    vstd::slice::slice_to_vec(out.as_str().as_bytes())
}

// ---------------------------------------------------------------------------
// Laws of the tray
// ---------------------------------------------------------------------------

/// Whether every item but that at `addr` is the same before and after.
pub open spec fn others_stay(before: Items, after: Items, addr: Seq<char>) -> bool {
    forall|k: Seq<char>|
        k != addr ==> (#[trigger] after.contains_key(k) <==> before.contains_key(k)) && (
        before.contains_key(k) ==> after[k] == before[k])
}

/// An item that is added is shown as it was given; one that is removed is not
/// shown. A change of icon, status or tooltip takes effect on an item that is
/// there, leaves the rest of it, and brings no new item.
pub proof fn law_items_follow_the_messages(
    items: Items,
    addr: String,
    icon: Option<u64>,
    status: ItemStatus,
    tooltip: Option<Tooltip>,
)
    ensures
        ({
            let n = items_after(items, TrayMsg::Add { addr, icon, status, tooltip }).0;
            &&& others_stay(items, n, addr@)
            &&& n.contains_key(addr@)
            &&& n[addr@].icon == icon && n[addr@].status == status && n[addr@].tooltip == tooltip
        }),
        ({
            let n = items_after(items, TrayMsg::Remove(addr)).0;
            others_stay(items, n, addr@) && !n.contains_key(addr@)
        }),
        ({
            let n = items_after(items, TrayMsg::UpdateIcon(addr, icon)).0;
            &&& others_stay(items, n, addr@)
            &&& n.contains_key(addr@) <==> items.contains_key(addr@)
            &&& items.contains_key(addr@) ==> n[addr@].icon == icon && n[addr@].status
                == items[addr@].status && n[addr@].tooltip == items[addr@].tooltip
        }),
        ({
            let n = items_after(items, TrayMsg::UpdateStatus(addr, status)).0;
            &&& others_stay(items, n, addr@)
            &&& n.contains_key(addr@) <==> items.contains_key(addr@)
            &&& items.contains_key(addr@) ==> n[addr@].status == status && n[addr@].icon
                == items[addr@].icon && n[addr@].tooltip == items[addr@].tooltip
        }),
        ({
            let n = items_after(items, TrayMsg::UpdateTooltip(addr, tooltip)).0;
            &&& others_stay(items, n, addr@)
            &&& n.contains_key(addr@) <==> items.contains_key(addr@)
            &&& items.contains_key(addr@) ==> tooltip_text(n[addr@].tooltip) == tooltip_text(
                tooltip,
            ) && n[addr@].icon == items[addr@].icon && n[addr@].status == items[addr@].status
        }),
{
}

/// The tray is painted again exactly if a message changed what it holds; an
/// addition always counts as a change.
pub proof fn law_changes_are_painted(items: Items, msg: TrayMsg)
    ensures
        !items_after(items, msg).1 ==> items_after(items, msg).0 == items,
        items_after(items, msg).1 && !(msg is Add) ==> items_after(items, msg).0 != items,
        msg is Add ==> items_after(items, msg).1,
{
    let n = items_after(items, msg).0;
    match msg {
        TrayMsg::UpdateIcon(addr, icon) => {
            if items_after(items, msg).1 {
                assert(n[addr@].icon != items[addr@].icon);
            }
        },
        TrayMsg::UpdateStatus(addr, status) => {
            if items_after(items, msg).1 {
                assert(n[addr@].status != items[addr@].status);
            }
        },
        TrayMsg::UpdateTooltip(addr, tooltip) => {
            if items_after(items, msg).1 {
                assert(n[addr@].tooltip != items[addr@].tooltip);
            }
        },
        TrayMsg::Remove(addr) => {
            if items_after(items, msg).1 {
                assert(!n.contains_key(addr@));
            } else {
                assert(n =~= items);
            }
        },
        _ => {},
    }
}

/// A passive item is hidden, every other is shown, with its icon, marked exactly
/// if it wants attention, and with a tooltip exactly if that says something.
pub proof fn law_passive_items_are_hidden(item: TrayItem)
    ensures
        cell_of(item) is None <==> item.status is Passive,
        match cell_of(item) {
            Some(c) => {
                &&& c.icon == item.icon
                &&& c.attention <==> item.status is NeedsAttention
                &&& c.has_tooltip <==> item.tooltip is Some && (item.tooltip->0.title@.len() > 0
                    || item.tooltip->0.description@.len() > 0)
            },
            None => true,
        },
{
}

/// The words `Passive` and `NeedsAttention` name those states, and every other
/// text means active.
pub proof fn law_status_words(s: Seq<char>)
    ensures
        status_of(s) is Passive <==> s == "Passive"@,
        status_of(s) is NeedsAttention <==> s == "NeedsAttention"@,
{
    reveal_strlit("Passive");
    reveal_strlit("NeedsAttention");
    assert("Passive"@.len() == 7);
    assert("NeedsAttention"@.len() == 14);
}

/// An address is a bus name and an object path from the first slash on; without
/// a slash the path is the usual one. A service that is given by its path alone
/// is known by its sender and the path.
pub proof fn law_addresses(dest: Seq<char>, path: Seq<char>, sender: Seq<char>)
    requires
        !dest.contains('/'),
    ensures
        address_parts(dest.push('/') + path) == (dest, seq!['/'] + path),
        address_parts(dest) == (dest, "/StatusNotifierItem"@),
        item_address(dest) == dest + "/StatusNotifierItem"@,
        item_address(dest.push('/') + path) == dest.push('/') + path,
        registered_name(seq!['/'] + path, Some(sender)) == sender + (seq!['/'] + path),
        registered_name(dest, Some(sender)) == dest,
        registered_name(path, None) == path,
{
    let a = dest.push('/') + path;
    assert forall|k: int| 0 <= k < dest.len() implies a[k] != '/' by {
        assert(dest[k] == a[k]);
        assert(dest.contains(dest[k]));
    }
    text::lemma_index_of_char_is(a, '/', dest.len() as int);
    assert(a.take(dest.len() as int) =~= dest);
    assert(a.skip(dest.len() as int) =~= seq!['/'] + path);
    assert(a[dest.len() as int] == '/');
    assert(a.contains('/'));
    text::lemma_index_of_char(dest, '/');
    reveal_strlit("/");
    let p = seq!['/'] + path;
    assert(p.subrange(0, 1) =~= "/"@);
    if text::starts_with(dest, "/"@) {
        assert(dest.subrange(0, 1)[0] == '/');
        assert(dest.contains(dest[0]));
    }
}

proof fn lemma_owned_keys(keys: Seq<Seq<char>>, m: Map<Seq<char>, String>, owner: Seq<char>)
    ensures
        forall|k: Seq<char>| #[trigger]
            owned_by(keys, m, owner).contains(k) <==> keys.contains(k) && m[k]@ == owner,
    decreases keys.len(),
{
    if keys.len() > 0 {
        let t = keys.drop_last();
        lemma_owned_keys(t, m, owner);
        assert(t.push(keys.last()) =~= keys);
        sorting::lemma_push_holds(t, keys.last());
        sorting::lemma_push_holds(owned_by(t, m, owner), keys.last());
    }
}

/// What a bus name owned is exactly what goes when it is lost, and everything
/// else stays as it was.
pub proof fn law_owned_items_go(
    keys: Seq<Seq<char>>,
    m: Map<Seq<char>, String>,
    owner: Seq<char>,
    k: Seq<char>,
)
    ensures
        owned_by(keys, m, owner).contains(k) <==> keys.contains(k) && m[k]@ == owner,
        not_owned_by(m, owner).contains_key(k) <==> m.contains_key(k) && m[k]@ != owner,
        not_owned_by(m, owner).contains_key(k) ==> not_owned_by(m, owner)[k] == m[k],
{
    lemma_owned_keys(keys, m, owner);
}

/// A name is lost if it had an owner and has none now.
pub proof fn law_lost_owner(old_owner: Option<Seq<char>>, new_owner: Option<Seq<char>>)
    ensures
        lost_owner(old_owner, new_owner) is Some <==> {
            &&& old_owner is Some && old_owner->0.len() > 0
            &&& new_owner is None || new_owner->0.len() == 0
        },
        lost_owner(old_owner, new_owner) is Some ==> lost_owner(old_owner, new_owner) == old_owner,
{
}

/// A request for the menu fetches the item's menu, if it has one; any other
/// request calls the item itself, at its bus name and path, with what was asked.
pub proof fn law_requests_reach_the_item(
    metas: Map<Seq<char>, TrayItemMeta>,
    addr: String,
    delta: i32,
    orientation: Orientation,
)
    ensures
        match action_for(metas, ActivateReq::Menu(addr)) {
            ActivateView::FetchMenu(p) => metas.contains_key(addr@) && metas[addr@].menu_path is Some
                && p == metas[addr@].menu_path->0@,
            ActivateView::Nothing => !metas.contains_key(addr@) || metas[addr@].menu_path is None,
            _ => false,
        },
        ({
            let (dest, path) = address_parts(addr@);
            &&& action_for(metas, ActivateReq::Default(addr)) == ActivateView::Call(
                dest,
                path,
                ItemCall::Activate,
            )
            &&& action_for(metas, ActivateReq::Secondary(addr)) == ActivateView::Call(
                dest,
                path,
                ItemCall::SecondaryActivate,
            )
            &&& action_for(metas, ActivateReq::Scroll(addr, delta, orientation))
                == ActivateView::Call(dest, path, ItemCall::Scroll(delta, orientation))
        }),
{
}

/// A pixel of an icon that comes as alpha, red, green, blue is stored as blue,
/// green, red, alpha; only square-ended data of at most 512 by 512 is taken.
pub proof fn law_pixels_are_reordered(w: i32, h: i32, p: Seq<u8>, k: int)
    ensures
        rendered(w, h, p) is Some <==> 0 < w <= 512 && 0 < h <= 512 && p.len() == w * h * 4,
        match rendered(w, h, p) {
            Some((rw, rh, q)) => {
                &&& rw == w && rh == h && q.len() == p.len()
                &&& 0 <= k && 4 * k + 3 < p.len() ==> q[4 * k] == p[4 * k + 3] && q[4 * k + 1]
                    == p[4 * k + 2] && q[4 * k + 2] == p[4 * k + 1] && q[4 * k + 3] == p[4 * k]
            },
            None => true,
        },
{
}

/// Red and blue of each pixel change places, green and alpha stay.
pub proof fn law_red_and_blue_change_places(p: Seq<u8>, k: int)
    requires
        0 <= k,
        4 * k + 3 < p.len(),
    ensures
        4 * k + 3 < swapped_ends(p).len(),
        swapped_ends(p)[4 * k] == p[4 * k + 2],
        swapped_ends(p)[4 * k + 1] == p[4 * k + 1],
        swapped_ends(p)[4 * k + 2] == p[4 * k],
        swapped_ends(p)[4 * k + 3] == p[4 * k + 3],
{
}

/// A tooltip is made of the third and the fourth field, if there are four and
/// one of these says something.
pub proof fn law_tooltip_fields(fields: Seq<Option<String>>)
    ensures
        fields.len() < 4 ==> tooltip_of(fields) is None,
        fields.len() >= 4 && fields[2] is Some && fields[3] is Some ==> {
            let t = fields[2]->0@;
            let d = fields[3]->0@;
            tooltip_of(fields) == (if t.len() == 0 && d.len() == 0 {
                None
            } else {
                Some((t, d))
            })
        },
        fields.len() >= 4 && fields[2] is None && fields[3] is None ==> tooltip_of(fields) is None,
{
}

/// The kinds of icon file that can be read, by extension.
pub proof fn law_icon_formats(ext: Seq<char>)
    ensures
        format_of(ext) == Some(IconFormat::Svg) <==> ext == "svg"@ || ext == "svgz"@,
        format_of(ext) == Some(IconFormat::Png) <==> ext == "png"@,
        format_of(ext) == Some(IconFormat::Bitmap) <==> ext == "ico"@ || ext == "bmp"@ || ext
            == "jpg"@ || ext == "jpeg"@ || ext == "gif"@,
{
    reveal_strlit("svg");
    reveal_strlit("svgz");
    reveal_strlit("png");
    reveal_strlit("ico");
    reveal_strlit("bmp");
    reveal_strlit("jpg");
    reveal_strlit("jpeg");
    reveal_strlit("gif");
    assert("svg"@[0] == 's' && "svgz"@[0] == 's' && "png"@[0] == 'p' && "ico"@[0] == 'i' && "bmp"@[0]
        == 'b' && "jpg"@[0] == 'j' && "jpeg"@[0] == 'j' && "gif"@[0] == 'g');
}

/// A menu that is ready is opened, unless it is the one that is open: then it is
/// closed. Closing a menu leaves none open, and neither changes the items.
pub proof fn law_menus_open_and_close(m: &mut TrayModule, addr: String, r: TrayAction)
    requires
        old(m).wf(),
        call_ensures(TrayModule::apply, (m, TrayMsg::MenuReady { addr }), r),
    ensures
        final(m).items@ == old(m).items@,
        final(m).open_menu is None,
        r == TrayAction::CloseMenu <==> old(m).open_menu is Some && old(m).open_menu->0@ == addr@,
        r == TrayAction::OpenMenu || r == TrayAction::CloseMenu,
{
}

/// A service that registers an item is known from then on under the address that
/// is told, as the sender's; every other item keeps its owner.
pub proof fn law_registered_items_are_known(
    w: &mut WatcherState,
    service: &str,
    sender: &str,
    r: String,
    k: Seq<char>,
)
    requires
        old(w).wf(),
        call_ensures(WatcherState::register_item, (w, service, Some(sender)), r),
    ensures
        final(w).hosts == old(w).hosts,
        owners(final(w).items@).contains_key(r@),
        owners(final(w).items@)[r@] == sender@,
        k != r@ ==> (owners(final(w).items@).contains_key(k) <==> owners(
            old(w).items@,
        ).contains_key(k)),
        k != r@ && owners(old(w).items@).contains_key(k) ==> owners(final(w).items@)[k] == owners(
            old(w).items@,
        )[k],
        r@.contains('/'),
        service@.contains('/') && !(seq!['/']).is_prefix_of(service@) ==> r@ == service@,
        (seq!['/']).is_prefix_of(service@) ==> r@ == sender@ + service@,
{
    reveal_strlit("/");
    assert("/"@ =~= seq!['/']);
    text::law_places_of_a_text(service@, "/"@);
    let name = registered_name(service@, Some(sender@));
    reveal_strlit("/StatusNotifierItem");
    let full = name + "/StatusNotifierItem"@;
    assert(full[name.len() as int] == '/');
    assert(full.contains('/'));
    if (seq!['/']).is_prefix_of(service@) {
        let s = sender@ + service@;
        assert(service@.subrange(0, 1)[0] == (seq!['/'])[0]);
        assert(s[sender@.len() as int] == '/');
        assert(s.contains('/'));
    }
}

/// When a bus name is lost, exactly the items and hosts that it owned are
/// forgotten, and just these items are told; otherwise nothing changes.
pub proof fn law_lost_names_take_their_items(
    w: &mut WatcherState,
    old_owner: &str,
    new_owner: Option<&str>,
    r: Vec<String>,
    k: Seq<char>,
)
    requires
        old(w).wf(),
        call_ensures(WatcherState::owner_changed, (w, Some(old_owner), new_owner), r),
    ensures
        old_owner@.len() > 0 && (new_owner is None || new_owner->0@.len() == 0) ==> {
            &&& final(w).items@.contains_key(k) <==> old(w).items@.contains_key(k) && old(
                w,
            ).items@[k]@ != old_owner@
            &&& final(w).items@.contains_key(k) ==> final(w).items@[k] == old(w).items@[k]
            &&& final(w).hosts@.contains_key(k) <==> old(w).hosts@.contains_key(k) && old(
                w,
            ).hosts@[k]@ != old_owner@
            &&& text::views(r@).contains(k) <==> old(w).items.keys().contains(k) && old(
                w,
            ).items@[k]@ == old_owner@
        },
        old_owner@.len() == 0 || (new_owner is Some && new_owner->0@.len() > 0) ==> r@.len() == 0
            && *final(w) == *old(w),
{
    law_owned_items_go(old(w).items.keys(), old(w).items@, old_owner@, k);
    law_owned_items_go(old(w).hosts.keys(), old(w).hosts@, old_owner@, k);
}

/// An item that is not known is added, one that is known is not added again, and
/// one that is removed is forgotten and taken off the tray.
pub proof fn law_host_follows_the_watcher(
    h: &mut HostSession,
    addr: String,
    added: bool,
    r: HostAction,
)
    requires
        old(h).wf(),
        call_ensures(
            HostSession::on_event,
            (
                h,
                &(if added {
                    WatcherEvent::ItemAdded(addr)
                } else {
                    WatcherEvent::ItemRemoved(addr)
                }),
            ),
            r,
        ),
    ensures
        added && old(h).metas@.contains_key(addr@) ==> r == HostAction::Nothing,
        added && !old(h).metas@.contains_key(addr@) ==> r == HostAction::AddItem,
        added ==> final(h).metas@ == old(h).metas@,
        !added ==> r == HostAction::RemoveItem && !final(h).metas@.contains_key(addr@),
        forall|k: Seq<char>|
            k != addr@ ==> (#[trigger] final(h).metas@.contains_key(k) <==> old(
                h,
            ).metas@.contains_key(k)),
{
}

/// Empty values mean nothing: an item without a menu path, or with the root as
/// one, has no menu, and an empty icon directory is none. An item that says
/// nothing of its state is active.
pub proof fn law_item_properties(raw: RawProps, r: ItemProps)
    requires
        call_ensures(read_props, (raw,), r),
    ensures
        raw.menu is Some && raw.menu->0@.len() > 1 ==> r.menu_path is Some && r.menu_path->0@
            == raw.menu->0@,
        raw.menu is None || raw.menu->0@.len() == 0 || raw.menu->0@ == "/"@ ==> r.menu_path is None,
        raw.icon_theme_path is Some && raw.icon_theme_path->0@.len() > 0 ==> r.icon_theme_path
            is Some && r.icon_theme_path->0@ == raw.icon_theme_path->0@,
        raw.icon_theme_path is None || raw.icon_theme_path->0@.len() == 0 ==> r.icon_theme_path
            is None,
        raw.status is None ==> r.status is Active,
        raw.status is Some ==> (r.status is Passive <==> raw.status->0@ == "Passive"@),
        raw.icon_name is Some ==> r.icon_name@ == raw.icon_name->0@,
        r.ask_for_icon <==> r.pixmap is None && r.icon_name@.len() == 0,
{
    reveal_strlit("/");
    assert("/"@.len() == 1);
    if raw.status is Some {
        law_status_words(raw.status->0@);
    }
}

/// Pixels that are at hand are used; else an icon given by its path is loaded
/// from there; else it is looked for by its name; without any there is none.
pub proof fn law_icon_plan(
    pixmap: Option<Pixmap>,
    icon_name: &str,
    theme_dir: Option<&str>,
    r: IconPlan,
)
    requires
        call_ensures(resolve_icon, (pixmap, icon_name, theme_dir), r),
    ensures
        r is Pixels <==> pixmap is Some,
        r is Nothing <==> pixmap is None && icon_name@.len() == 0,
        r is File <==> pixmap is None && ("/"@).is_prefix_of(icon_name@),
        r matches IconPlan::File(f) ==> f@ == icon_name@,
        r is Search <==> pixmap is None && icon_name@.len() > 0 && !("/"@).is_prefix_of(icon_name@),
{
    reveal_strlit("/");
    assert("/"@.len() == 1);
    text::law_places_of_a_text(icon_name@, "/"@);
}

} // verus!
