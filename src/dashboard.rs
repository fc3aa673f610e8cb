//! The dashboard's plain state: components that can be hidden, tabs, modes
//! and trend marks.

use vstd::prelude::*;
use vstd::string::StringExecFns;
use crate::text::{trim, trimmed, to_lowercase, lowered, same_text};
use crate::cache::FallbackCache;
use crate::portfolio::{Portfolio, positions_wf};
use crate::position::{PortfolioPosition, lemma_balance_bound, max_balance};
use crate::refresh::NetworkStatus;

verus! {

/// A part of the dashboard that can be hidden.
#[derive(Debug, Clone, Copy, PartialEq, Eq, Structural, Hash)]
pub enum Component {
    TabBar,
    TotalValue,
    AssetAllocation,
    DetailedAllocation,
    Help,
    Name,
    AssetClass,
    Amount,
    Price,
    AvgCost,
    Invested,
    PnL,
    Hist,
    Daily,
    Balance,
}

/// The name by which a component is hidden.
pub open spec fn component_text(c: Component) -> Seq<char> {
    match c {
        Component::TabBar => "tab_bar"@,
        Component::TotalValue => "total_value"@,
        Component::AssetAllocation => "asset_allocation"@,
        Component::DetailedAllocation => "detailed_allocation"@,
        Component::Help => "help"@,
        Component::Name => "name"@,
        Component::AssetClass => "asset_class"@,
        Component::Amount => "amount"@,
        Component::Price => "price"@,
        Component::AvgCost => "avg_cost"@,
        Component::Invested => "invested"@,
        Component::PnL => "pnl"@,
        Component::Hist => "%hist"@,
        Component::Daily => "%day"@,
        Component::Balance => "balance"@,
    }
}

/// The component a lowercase name stands for.
pub open spec fn component_named(s: Seq<char>) -> Option<Component> {
    if s == "tab_bar"@ {
        Some(Component::TabBar)
    } else if s == "total_value"@ {
        Some(Component::TotalValue)
    } else if s == "asset_allocation"@ {
        Some(Component::AssetAllocation)
    } else if s == "detailed_allocation"@ {
        Some(Component::DetailedAllocation)
    } else if s == "help"@ {
        Some(Component::Help)
    } else if s == "name"@ {
        Some(Component::Name)
    } else if s == "asset_class"@ {
        Some(Component::AssetClass)
    } else if s == "amount"@ {
        Some(Component::Amount)
    } else if s == "price"@ {
        Some(Component::Price)
    } else if s == "avg_cost"@ {
        Some(Component::AvgCost)
    } else if s == "invested"@ {
        Some(Component::Invested)
    } else if s == "pnl"@ {
        Some(Component::PnL)
    } else if s == "%hist"@ || s == "hist"@ {
        Some(Component::Hist)
    } else if s == "%day"@ || s == "day"@ {
        Some(Component::Daily)
    } else if s == "balance"@ {
        Some(Component::Balance)
    } else {
        None
    }
}

/// What a component name, trimmed and lowercased, stands for.
pub open spec fn component_of(s: Seq<char>) -> Option<Component> {
    component_named(lowered(trimmed(s)))
}

/// Message for a name that is no component.
pub open spec fn unknown_component_text(s: Seq<char>) -> Seq<char> {
    "Unknown component: '"@ + s + "'"@
}

impl Component {
    /// Every component, in display order.
    pub fn all() -> (r: Vec<Component>)
        ensures
            r@ == seq![
                Component::TabBar,
                Component::TotalValue,
                Component::AssetAllocation,
                Component::DetailedAllocation,
                Component::Help,
                Component::Name,
                Component::AssetClass,
                Component::Amount,
                Component::Price,
                Component::AvgCost,
                Component::Invested,
                Component::PnL,
                Component::Hist,
                Component::Daily,
                Component::Balance,
            ],
    {
        vec![
            Component::TabBar,
            Component::TotalValue,
            Component::AssetAllocation,
            Component::DetailedAllocation,
            Component::Help,
            Component::Name,
            Component::AssetClass,
            Component::Amount,
            Component::Price,
            Component::AvgCost,
            Component::Invested,
            Component::PnL,
            Component::Hist,
            Component::Daily,
            Component::Balance,
        ]
    }

    /// The component's name.
    pub fn as_str(&self) -> (r: &'static str)
        ensures
            r@ == component_text(*self),
    {
        match self {
            Component::TabBar => "tab_bar",
            Component::TotalValue => "total_value",
            Component::AssetAllocation => "asset_allocation",
            Component::DetailedAllocation => "detailed_allocation",
            Component::Help => "help",
            Component::Name => "name",
            Component::AssetClass => "asset_class",
            Component::Amount => "amount",
            Component::Price => "price",
            Component::AvgCost => "avg_cost",
            Component::Invested => "invested",
            Component::PnL => "pnl",
            Component::Hist => "%hist",
            Component::Daily => "%day",
            Component::Balance => "balance",
        }
    }

    /// What the component shows.
    pub fn description(&self) -> (r: &'static str)
        ensures
            r@ == component_description(*self),
    {
        match self {
            Component::TabBar => "Top navigation bar showing active tab",
            Component::TotalValue => "Total portfolio value display",
            Component::AssetAllocation => "Asset bar chart",
            Component::DetailedAllocation => "Asset percentages",
            Component::Help => "Keyboard shortcuts",
            Component::Name => "Name column in the balances table",
            Component::AssetClass => "Asset Class column in the balances table",
            Component::Amount => "Amount column in the balances table",
            Component::Price => "Market price column in the balances table",
            Component::AvgCost => "Average cost column (from purchases)",
            Component::Invested => "Invested amount column (from purchases)",
            Component::PnL => "Unrealized PnL column",
            Component::Hist => "Historic variation % column (vs invested)",
            Component::Daily => "Daily variation % column (vs previous close)",
            Component::Balance => "Balance column in the balances table",
        }
    }

    /// The component named by `s`, ignoring case and surrounding
    /// whitespace.
    pub fn parse(s: &str) -> (r: Result<Component, String>)
        ensures
            match component_of(s@) {
                Some(c) => r == Ok::<Component, String>(c),
                None => r matches Err(m) && m@ == unknown_component_text(s@),
            },
    {
        let lower = to_lowercase(trim(s));
        match Component::from_name(lower.as_str()) {
            Some(c) => Ok(c),
            None => {
                let mut m = "Unknown component: '".to_owned();
                m.append(s);
                m.append("'");
                Err(m)
            },
        }
    }

    /// The component a lowercase, trimmed name stands for.
    pub fn from_name(l: &str) -> (r: Option<Component>)
        ensures
            r == component_named(l@),
    {
        if same_text(l, "tab_bar") {
            Some(Component::TabBar)
        } else if same_text(l, "total_value") {
            Some(Component::TotalValue)
        } else if same_text(l, "asset_allocation") {
            Some(Component::AssetAllocation)
        } else if same_text(l, "detailed_allocation") {
            Some(Component::DetailedAllocation)
        } else if same_text(l, "help") {
            Some(Component::Help)
        } else if same_text(l, "name") {
            Some(Component::Name)
        } else if same_text(l, "asset_class") {
            Some(Component::AssetClass)
        } else if same_text(l, "amount") {
            Some(Component::Amount)
        } else if same_text(l, "price") {
            Some(Component::Price)
        } else if same_text(l, "avg_cost") {
            Some(Component::AvgCost)
        } else if same_text(l, "invested") {
            Some(Component::Invested)
        } else if same_text(l, "pnl") {
            Some(Component::PnL)
        } else if same_text(l, "%hist") || same_text(l, "hist") {
            Some(Component::Hist)
        } else if same_text(l, "%day") || same_text(l, "day") {
            Some(Component::Daily)
        } else if same_text(l, "balance") {
            Some(Component::Balance)
        } else {
            None
        }
    }
}

/// What a component shows.
pub open spec fn component_description(c: Component) -> Seq<char> {
    match c {
        Component::TabBar => "Top navigation bar showing active tab"@,
        Component::TotalValue => "Total portfolio value display"@,
        Component::AssetAllocation => "Asset bar chart"@,
        Component::DetailedAllocation => "Asset percentages"@,
        Component::Help => "Keyboard shortcuts"@,
        Component::Name => "Name column in the balances table"@,
        Component::AssetClass => "Asset Class column in the balances table"@,
        Component::Amount => "Amount column in the balances table"@,
        Component::Price => "Market price column in the balances table"@,
        Component::AvgCost => "Average cost column (from purchases)"@,
        Component::Invested => "Invested amount column (from purchases)"@,
        Component::PnL => "Unrealized PnL column"@,
        Component::Hist => "Historic variation % column (vs invested)"@,
        Component::Daily => "Daily variation % column (vs previous close)"@,
        Component::Balance => "Balance column in the balances table"@,
    }
}

impl std::str::FromStr for Component {
    type Err = String;

    fn from_str(s: &str) -> Result<Component, String> {
        Component::parse(s)
    }
}

/// Byte-wise lexicographic order of texts, as `str`'s ordering.
pub open spec fn text_before(a: Seq<u8>, b: Seq<u8>) -> bool
    decreases a.len(),
{
    if a.len() == 0 {
        b.len() > 0
    } else if b.len() == 0 {
        false
    } else if a[0] != b[0] {
        a[0] < b[0]
    } else {
        text_before(a.drop_first(), b.drop_first())
    }
}

proof fn lemma_text_order(a: Seq<u8>, b: Seq<u8>, c: Seq<u8>)
    ensures
        text_before(a, b) && text_before(b, c) ==> text_before(a, c),
        !text_before(a, b) && !text_before(b, a) ==> a == b,
        !(text_before(a, b) && text_before(b, a)),
    decreases a.len(),
{
    if a.len() > 0 && b.len() > 0 && c.len() > 0 {
        lemma_text_order(a.drop_first(), b.drop_first(), c.drop_first());
        if a[0] == b[0] && !text_before(a, b) && !text_before(b, a) {
            assert(a =~= seq![a[0]] + a.drop_first());
            assert(b =~= seq![b[0]] + b.drop_first());
        }
    } else if a.len() > 0 && b.len() > 0 {
        lemma_text_order(a.drop_first(), b.drop_first(), b.drop_first());
        if a[0] == b[0] && !text_before(a, b) && !text_before(b, a) {
            assert(a =~= seq![a[0]] + a.drop_first());
            assert(b =~= seq![b[0]] + b.drop_first());
        }
    }
}

/// Whether `a` sorts before `b`.
fn bytes_before(a: &[u8], b: &[u8]) -> (r: bool)
    ensures
        r == text_before(a@, b@),
{
    let mut i: usize = 0;
    assert(a@.subrange(0, a@.len() as int) =~= a@);
    assert(b@.subrange(0, b@.len() as int) =~= b@);
    while i < a.len() && i < b.len() && a[i] == b[i]
        invariant
            0 <= i <= a@.len(),
            i <= b@.len(),
            forall|k: int| 0 <= k < i ==> a@[k] == b@[k],
            text_before(a@, b@) == text_before(a@.subrange(i as int, a@.len() as int), b@.subrange(i as int, b@.len() as int)),
        decreases a@.len() - i,
    {
        proof {
            let sa = a@.subrange(i as int, a@.len() as int);
            let sb = b@.subrange(i as int, b@.len() as int);
            assert(sa.drop_first() =~= a@.subrange(i as int + 1, a@.len() as int));
            assert(sb.drop_first() =~= b@.subrange(i as int + 1, b@.len() as int));
        }
        i = i + 1;
    }
    if i == a.len() {
        i < b.len()
    } else if i == b.len() {
        false
    } else {
        a[i] < b[i]
    }
}

/// A lot's date as the text it sorts by; no date sorts as empty text.
pub open spec fn date_key(p: crate::position::Purchase) -> Seq<u8> {
    match p.date {
        Some(d) => vstd::utf8::encode_utf8(d@),
        None => Seq::empty(),
    }
}

/// The order in which a position's purchases are listed: by date text,
/// newest first; as a list of indices into the purchases.
pub fn purchase_display_order(lots: &Vec<crate::position::Purchase>) -> (r: Vec<usize>)
    ensures
        r@.to_multiset() == Seq::new(lots@.len(), |k: int| k as usize).to_multiset(),
        forall|k: int| 0 <= k < r@.len() ==> (#[trigger] r@[k]) < lots@.len(),
        forall|a: int, b: int| 0 <= a < b < r@.len() ==>
            !text_before(date_key(lots@[#[trigger] r@[a] as int]), date_key(lots@[#[trigger] r@[b] as int])),
{
    let n = lots.len();
    let mut keys: Vec<&[u8]> = Vec::new();
    let mut order: Vec<usize> = Vec::new();
    let mut k: usize = 0;
    while k < n
        invariant
            n == lots@.len(),
            0 <= k <= n,
            keys@.len() == k,
            order@ == Seq::new(k as nat, |j: int| j as usize),
            forall|j: int| 0 <= j < k ==> (#[trigger] keys@[j])@ == date_key(lots@[j]),
        decreases n - k,
    {
        let key: &[u8] = match &lots[k].date {
            Some(d) => d.as_str().as_bytes(),
            None => &[],
        };
        keys.push(key);
        order.push(k);
        assert(order@ =~= Seq::new((k + 1) as nat, |j: int| j as usize));
        k = k + 1;
    }
    let ghost start = order@;
    if n == 0 {
        return order;
    }
    let mut i: usize = 1;
    while i < n
        invariant
            1 <= i <= n,
            n == lots@.len(),
            keys@.len() == n,
            forall|j: int| 0 <= j < n ==> (#[trigger] keys@[j])@ == date_key(lots@[j]),
            order@.len() == n,
            order@.to_multiset() == start.to_multiset(),
            start == Seq::new(n as nat, |j: int| j as usize),
            forall|j: int| 0 <= j < n ==> (#[trigger] order@[j]) < n,
            forall|a: int, b: int| 0 <= a < b < i ==>
                !text_before(date_key(lots@[#[trigger] order@[a] as int]), date_key(lots@[#[trigger] order@[b] as int])),
        decreases n - i,
    {
        let ghost before = order@;
        let x = order.remove(i);
        assert(x == before[i as int]);
        assert(order@ =~= before.remove(i as int));
        let mut j: usize = 0;
        while j < i && !bytes_before(keys[order[j]], keys[x])
            invariant
                0 <= j <= i,
                i < n,
                x < n,
                keys@.len() == n,
                before.len() == n,
                order@ == before.remove(i as int),
                forall|q: int| 0 <= q < n - 1 ==> (#[trigger] order@[q]) < n,
                forall|a: int| 0 <= a < j ==> !text_before(keys@[order@[a] as int]@, keys@[x as int]@),
            decreases i - j,
        {
            j = j + 1;
        }
        let ghost mid = order@;
        proof {
            assert(forall|q: int| 0 <= q < i ==> mid[q] == before[q]);
            vstd::seq_lib::to_multiset_remove(before, i as int);
        }
        order.insert(j, x);
        proof {
            let v = order@;
            vstd::seq_lib::to_multiset_insert(mid, j as int, x);
            assert(v == mid.insert(j as int, x));
            broadcast use vstd::seq_lib::group_to_multiset_ensures;
            assert(before.contains(x));
            assert(v.to_multiset() =~= before.to_multiset());
            assert forall|a: int, b: int| 0 <= a < b < i + 1 implies
                !text_before(date_key(lots@[#[trigger] v[a] as int]), date_key(lots@[#[trigger] v[b] as int])) by {
                let ka = date_key(lots@[v[a] as int]);
                let kb = date_key(lots@[v[b] as int]);
                if b < j {
                    assert(v[a] == before[a] && v[b] == before[b]);
                } else if b == j {
                    assert(v[a] == mid[a]);
                    assert(keys@[mid[a] as int]@ == ka);
                    assert(keys@[x as int]@ == kb);
                } else if a == j {
                    assert(v[b] == mid[b - 1]);
                    assert(mid[b - 1] == before[b - 1]);
                    if j < i {
                        let kj = date_key(lots@[mid[j as int] as int]);
                        assert(keys@[mid[j as int] as int]@ == kj);
                        assert(keys@[x as int]@ == ka);
                        assert(text_before(kj, ka));
                        assert(mid[j as int] == before[j as int]);
                        if j as int != b - 1 {
                            assert(!text_before(kj, kb));
                        }
                        lemma_text_order(kb, kj, ka);
                        lemma_text_order(kj, kb, ka);
                        lemma_text_order(ka, kb, kj);
                        lemma_text_order(ka, kj, kb);
                        lemma_text_order(kb, ka, kj);
                    }
                } else if a < j {
                    assert(v[a] == before[a]);
                    assert(v[b] == before[b - 1]);
                } else {
                    assert(v[a] == before[a - 1]);
                    assert(v[b] == before[b - 1]);
                }
            }
            assert forall|q: int| 0 <= q < n implies (#[trigger] v[q]) < n by {
                if q < j {
                    assert(v[q] == mid[q]);
                } else if q > j {
                    assert(v[q] == mid[q - 1]);
                }
            }
        }
        i = i + 1;
    }
    order
}

/// Components the user asked to hide.
#[derive(Debug, Clone)]
pub struct DisabledComponents {
    disabled: Vec<Component>,
}

impl View for DisabledComponents {
    type V = Set<Component>;

    closed spec fn view(&self) -> Set<Component> {
        self.disabled@.to_set()
    }
}

/// The components named in a list, by the rules of `Component::parse`.
pub open spec fn named_components(names: Seq<String>) -> Set<Component> {
    Set::new(|c: Component| exists|i: int| 0 <= i < names.len() && component_of((#[trigger] names[i])@) == Some(c))
}

/// Messages for the names in a list that are no component, in order.
pub open spec fn unknown_names(names: Seq<String>) -> Seq<Seq<char>>
    decreases names.len(),
{
    if names.len() == 0 {
        Seq::empty()
    } else {
        let earlier = unknown_names(names.drop_last());
        if component_of(names.last()@) is None {
            earlier.push(unknown_component_text(names.last()@))
        } else {
            earlier
        }
    }
}

impl DisabledComponents {
    /// The components named in `disabled_list`, or the messages for the
    /// names that are no component.
    pub fn new(disabled_list: Vec<String>) -> (r: Result<DisabledComponents, Vec<String>>)
        ensures
            unknown_names(disabled_list@).len() == 0 ==> (r matches Ok(d) && d@ == named_components(disabled_list@)),
            unknown_names(disabled_list@).len() > 0 ==> (r matches Err(es)
                && es@.map_values(|e: String| e@) == unknown_names(disabled_list@)),
    {
        let ghost names = disabled_list@;
        let mut disabled: Vec<Component> = Vec::new();
        let mut errors: Vec<String> = Vec::new();
        let mut i: usize = 0;
        while i < disabled_list.len()
            invariant
                names == disabled_list@,
                0 <= i <= names.len(),
                disabled@.to_set() == named_components(names.subrange(0, i as int)),
                errors@.map_values(|e: String| e@) == unknown_names(names.subrange(0, i as int)),
            decreases names.len() - i,
        {
            let ghost before = disabled@;
            match Component::parse(disabled_list[i].as_str()) {
                Ok(c) => {
                    disabled.push(c);
                },
                Err(e) => {
                    errors.push(e);
                },
            }
            proof {
                let pre = names.subrange(0, i as int);
                let post = names.subrange(0, i as int + 1);
                assert(post.drop_last() =~= pre);
                assert(post.last() == names[i as int]);
                assert forall|c: Component| disabled@.to_set().contains(c) <==> named_components(post).contains(c) by {
                    if named_components(post).contains(c) {
                        let k = choose|k: int| 0 <= k < post.len() && component_of((#[trigger] post[k])@) == Some(c);
                        if k < i {
                            assert(pre[k] == post[k]);
                            assert(named_components(pre).contains(c));
                            assert(before.to_set().contains(c));
                            let m = choose|m: int| 0 <= m < before.len() && before[m] == c;
                            assert(disabled@[m] == c);
                        } else {
                            assert(disabled@[disabled@.len() - 1] == c);
                        }
                    }
                    if disabled@.to_set().contains(c) {
                        let m = choose|m: int| 0 <= m < disabled@.len() && disabled@[m] == c;
                        if m < before.len() {
                            assert(before[m] == c);
                            assert(before.to_set().contains(c));
                            let k = choose|k: int| 0 <= k < pre.len() && component_of((#[trigger] pre[k])@) == Some(c);
                            assert(post[k] == pre[k]);
                        } else {
                            assert(component_of(post[i as int]@) == Some(c));
                        }
                    }
                }
                assert(disabled@.to_set() =~= named_components(post));
                assert(errors@.map_values(|e: String| e@) =~= unknown_names(post));
            }
            i = i + 1;
        }
        assert(names.subrange(0, i as int) =~= names);
        if errors.len() == 0 {
            Ok(DisabledComponents { disabled })
        } else {
            Err(errors)
        }
    }

    /// Hides one more component.
    pub fn disable_component(&mut self, component: Component)
        ensures
            final(self)@ == old(self)@.insert(component),
    {
        let ghost before = self.disabled@;
        self.disabled.push(component);
        assert forall|c: Component| self.disabled@.to_set().contains(c) <==> before.to_set().insert(component).contains(c) by {
            if self.disabled@.to_set().contains(c) {
                let m = choose|m: int| 0 <= m < self.disabled@.len() && self.disabled@[m] == c;
                if m < before.len() {
                    assert(before[m] == c);
                }
            }
            if before.to_set().contains(c) {
                let m = choose|m: int| 0 <= m < before.len() && before[m] == c;
                assert(self.disabled@[m] == c);
            }
            if c == component {
                assert(self.disabled@[before.len() as int] == c);
            }
        }
        assert(self.disabled@.to_set() =~= before.to_set().insert(component));
    }

    /// Whether `component` is hidden.
    pub fn is_disabled(&self, component: Component) -> (r: bool)
        ensures
            r == self@.contains(component),
    {
        let mut i: usize = 0;
        while i < self.disabled.len()
            invariant
                0 <= i <= self.disabled@.len(),
                forall|j: int| 0 <= j < i ==> self.disabled@[j] != component,
            decreases self.disabled@.len() - i,
        {
            if self.disabled[i] == component {
                assert(self.disabled@[i as int] == component);
                return true;
            }
            i = i + 1;
        }
        false
    }
}

impl Default for DisabledComponents {
    fn default() -> (r: DisabledComponents)
        ensures
            r@ == Set::<Component>::empty(),
    {
        let r = DisabledComponents { disabled: Vec::new() };
        assert(r.disabled@.to_set() =~= Set::<Component>::empty());
        r
    }
}

/// A dashboard tab.
#[derive(Debug, Clone, Copy, PartialEq, Eq, Structural)]
pub enum Tab {
    Overview,
    Balances,
}

/// The tab a lowercase name stands for.
pub open spec fn tab_named(s: Seq<char>) -> Option<Tab> {
    if s == "overview"@ {
        Some(Tab::Overview)
    } else if s == "balances"@ {
        Some(Tab::Balances)
    } else {
        None
    }
}

impl Tab {
    pub fn title(self) -> (r: &'static str)
        ensures
            r@ == match self {
                Tab::Overview => "Overview & Allocation"@,
                Tab::Balances => "Balances"@,
            },
    {
        match self {
            Tab::Overview => "Overview & Allocation",
            Tab::Balances => "Balances",
        }
    }

    /// Every tab, in display order.
    pub fn all() -> (r: Vec<Tab>)
        ensures
            r@ == seq![Tab::Overview, Tab::Balances],
    {
        vec![Tab::Overview, Tab::Balances]
    }

    /// The tab named by `s`, ignoring case.
    pub fn from_str(s: &str) -> (r: Option<Tab>)
        ensures
            r == tab_named(lowered(s@)),
    {
        let lower = to_lowercase(s);
        Tab::from_name(lower.as_str())
    }

    /// The tab a lowercase name stands for.
    pub fn from_name(l: &str) -> (r: Option<Tab>)
        ensures
            r == tab_named(l@),
    {
        if same_text(l, "overview") {
            Some(Tab::Overview)
        } else if same_text(l, "balances") {
            Some(Tab::Balances)
        } else {
            None
        }
    }

    /// The tab after this one, wrapping around.
    pub fn next(self) -> (r: Tab)
        ensures
            r == match self {
                Tab::Overview => Tab::Balances,
                Tab::Balances => Tab::Overview,
            },
    {
        match self {
            Tab::Overview => Tab::Balances,
            Tab::Balances => Tab::Overview,
        }
    }

    /// The tab before this one, wrapping around.
    pub fn previous(self) -> (r: Tab)
        ensures
            r == match self {
                Tab::Overview => Tab::Balances,
                Tab::Balances => Tab::Overview,
            },
    {
        match self {
            Tab::Overview => Tab::Balances,
            Tab::Balances => Tab::Overview,
        }
    }
}

/// The tab to open: the named one, else the overview.
pub fn parse_tab(tab_str: Option<String>) -> (r: Option<Tab>)
    ensures
        r == Some(match tab_str {
            Some(s) => match tab_named(lowered(s@)) {
                Some(t) => t,
                None => Tab::Overview,
            },
            None => Tab::Overview,
        }),
{
    match tab_str {
        Some(s) => match Tab::from_str(s.as_str()) {
            Some(t) => Some(t),
            None => Some(Tab::Overview),
        },
        None => Some(Tab::Overview),
    }
}

/// What the dashboard's keys act on.
#[derive(Debug, Clone, Copy, PartialEq, Eq, Structural)]
pub enum AppMode {
    Normal,
    Edit,
    PurchaseList,
    AddPurchase,
    EditPurchase,
}

/// The field of the purchase form being typed into.
#[derive(Debug, Clone, Copy, PartialEq, Eq, Structural)]
pub enum EditField {
    Date,
    Quantity,
    Price,
}

impl EditField {
    /// The field after this one, wrapping around.
    pub fn next(self) -> (r: EditField)
        ensures
            r == match self {
                EditField::Date => EditField::Quantity,
                EditField::Quantity => EditField::Price,
                EditField::Price => EditField::Date,
            },
    {
        match self {
            EditField::Date => EditField::Quantity,
            EditField::Quantity => EditField::Price,
            EditField::Price => EditField::Date,
        }
    }

    /// The field before this one, wrapping around.
    pub fn previous(self) -> (r: EditField)
        ensures
            r == match self {
                EditField::Date => EditField::Price,
                EditField::Quantity => EditField::Date,
                EditField::Price => EditField::Quantity,
            },
    {
        match self {
            EditField::Date => EditField::Price,
            EditField::Quantity => EditField::Date,
            EditField::Price => EditField::Quantity,
        }
    }
}

/// How a position's value moved since the last refresh.
#[derive(Debug, Clone, Copy, PartialEq, Eq, Structural)]
pub enum Trend {
    Up,
    Down,
    Neutral,
}

impl View for Trend {
    type V = Trend;

    open spec fn view(&self) -> Trend {
        *self
    }
}

/// The other tab: with two tabs, the next and the previous one coincide.
pub open spec fn tab_after(t: Tab) -> Tab {
    match t {
        Tab::Overview => Tab::Balances,
        Tab::Balances => Tab::Overview,
    }
}

/// The form field after `f`, wrapping around.
pub open spec fn field_after(f: EditField) -> EditField {
    match f {
        EditField::Date => EditField::Quantity,
        EditField::Quantity => EditField::Price,
        EditField::Price => EditField::Date,
    }
}

/// The form field before `f`, wrapping around.
pub open spec fn field_before(f: EditField) -> EditField {
    match f {
        EditField::Date => EditField::Price,
        EditField::Quantity => EditField::Date,
        EditField::Price => EditField::Quantity,
    }
}

/// Change of value, in fixed-point units, below which a trend is kept.
pub const TREND_THRESHOLD: i128 = 10_000;

/// Trend of a position whose value was `previous` (if seen before) and is
/// now `current`; a change within the threshold keeps the earlier trend.
pub open spec fn trend_after(previous: Option<i128>, earlier: Option<Trend>, current: int) -> Trend {
    match previous {
        None => Trend::Neutral,
        Some(p) => if current > p + TREND_THRESHOLD {
            Trend::Up
        } else if current < p - TREND_THRESHOLD {
            Trend::Down
        } else {
            match earlier {
                Some(t) => t,
                None => Trend::Neutral,
            }
        },
    }
}

pub open spec fn lookup_of<V>(m: Map<Seq<char>, V>, k: Seq<char>) -> Option<V> {
    if m.contains_key(k) {
        Some(m[k])
    } else {
        None
    }
}

/// Previous values and trends after seeing the positions in order.
pub open spec fn trends_after(
    values: Map<Seq<char>, i128>,
    trends: Map<Seq<char>, Trend>,
    ps: Seq<PortfolioPosition>,
) -> (Map<Seq<char>, i128>, Map<Seq<char>, Trend>)
    decreases ps.len(),
{
    if ps.len() == 0 {
        (values, trends)
    } else {
        let (v, t) = trends_after(values, trends, ps.drop_last());
        let p = ps.last();
        let name = p.display_name();
        (
            v.insert(name, p.balance() as i128),
            t.insert(name, trend_after(lookup_of(v, name), lookup_of(t, name), p.balance())),
        )
    }
}

/// The dashboard's state apart from the terminal and the update channels.
pub struct App {
    pub current_tab: Tab,
    pub portfolio: Option<Portfolio>,
    pub should_quit: bool,
    pub loading: bool,
    pub error_message: Option<String>,
    pub currency: String,
    pub previous_values: FallbackCache<String, i128>,
    pub trends: FallbackCache<String, Trend>,
    pub flash_state: bool,
    pub positions_str: String,
    pub mode: AppMode,
    pub selected_position: usize,
    pub selected_purchase: usize,
    pub edit_input: String,
    pub purchase_date_input: String,
    pub purchase_quantity_input: String,
    pub purchase_price_input: String,
    pub edit_field: EditField,
    pub data_file_path: String,
    pub historic_data: Option<Vec<(usize, i128)>>,
    pub network_status: NetworkStatus,
    pub disabled_components: DisabledComponents,
}

/// Number of positions shown, none before the first portfolio arrives.
pub open spec fn shown_positions(app: App) -> int {
    match app.portfolio {
        Some(p) => p.positions@.len() as int,
        None => 0,
    }
}

impl App {
    pub open spec fn wf(&self) -> bool {
        &&& self.previous_values.wf()
        &&& self.trends.wf()
        &&& (self.portfolio matches Some(p) ==> p.wf())
    }

    pub fn new(
        currency: String,
        positions_str: String,
        data_file_path: String,
        disabled_components: DisabledComponents,
    ) -> (r: App)
        ensures
            r.wf(),
            r.current_tab == Tab::Overview,
            r.portfolio is None,
            r.mode == AppMode::Normal,
            r.selected_position == 0,
            r.selected_purchase == 0,
            r.edit_field == EditField::Date,
            r.network_status == NetworkStatus::Connected,
            r.previous_values@ == Map::<Seq<char>, i128>::empty(),
            r.trends@ == Map::<Seq<char>, Trend>::empty(),
            r.currency == currency,
            r.positions_str == positions_str,
            r.data_file_path == data_file_path,
            r.disabled_components == disabled_components,
    {
        App {
            current_tab: Tab::Overview,
            portfolio: None,
            should_quit: false,
            loading: false,
            error_message: None,
            currency,
            previous_values: FallbackCache::new(),
            trends: FallbackCache::new(),
            flash_state: false,
            positions_str,
            mode: AppMode::Normal,
            selected_position: 0,
            selected_purchase: 0,
            edit_input: String::new(),
            purchase_date_input: String::new(),
            purchase_quantity_input: String::new(),
            purchase_price_input: String::new(),
            edit_field: EditField::Date,
            data_file_path,
            historic_data: None,
            network_status: NetworkStatus::Connected,
            disabled_components,
        }
    }

    pub fn set_portfolio(&mut self, portfolio: Portfolio)
        requires
            old(self).wf(),
            portfolio.wf(),
        ensures
            final(self).wf(),
            *final(self) == (App { portfolio: Some(portfolio), loading: false, ..*old(self) }),
    {
        self.portfolio = Some(portfolio);
        self.loading = false;
    }

    pub fn next_tab(&mut self)
        ensures
            *final(self) == (App { current_tab: tab_after(old(self).current_tab), ..*old(self) }),
    {
        self.current_tab = self.current_tab.next();
    }

    pub fn previous_tab(&mut self)
        ensures
            *final(self) == (App { current_tab: tab_after(old(self).current_tab), ..*old(self) }),
    {
        self.current_tab = self.current_tab.previous();
    }

    /// Marks a refresh: the flash of changed values toggles.
    pub fn mark_refreshed(&mut self)
        ensures
            *final(self) == (App { flash_state: !old(self).flash_state, ..*old(self) }),
    {
        self.flash_state = !self.flash_state;
    }

    /// Records each position's value under its display name and how it
    /// moved since the last refresh.
    pub fn update_trends(&mut self, portfolio: &Portfolio)
        requires
            old(self).wf(),
            portfolio.wf(),
        ensures
            final(self).wf(),
            (final(self).previous_values@, final(self).trends@)
                == trends_after(old(self).previous_values@, old(self).trends@, portfolio.positions@),
    {
        let ghost ps = portfolio.positions@;
        let mut i: usize = 0;
        while i < portfolio.positions.len()
            invariant
                self.wf(),
                portfolio.wf(),
                ps == portfolio.positions@,
                0 <= i <= ps.len(),
                (self.previous_values@, self.trends@) == trends_after(old(self).previous_values@, old(self).trends@, ps.subrange(0, i as int)),
            decreases ps.len() - i,
        {
            let p = &portfolio.positions[i];
            let name = p.get_name().to_owned();
            let current = p.get_balance();
            proof {
                assert(ps.subrange(0, i as int + 1).drop_last() =~= ps.subrange(0, i as int));
                lemma_balance_bound(*p);
            }
            let previous = self.previous_values.lookup(&name);
            let trend = match previous {
                None => Trend::Neutral,
                Some(prev) => {
                    proof {
                        assert(max_balance() < 10_000_000_000_000_000_000_000_000_000);
                    }
                    if prev <= i128::MAX - TREND_THRESHOLD && current > prev + TREND_THRESHOLD {
                        Trend::Up
                    } else if prev >= i128::MIN + TREND_THRESHOLD && current < prev - TREND_THRESHOLD {
                        Trend::Down
                    } else {
                        match self.trends.lookup(&name) {
                            Some(t) => t,
                            None => Trend::Neutral,
                        }
                    }
                },
            };
            let key = name.clone();
            self.trends.store(key, trend);
            self.previous_values.store(name, current);
            i = i + 1;
        }
        assert(ps.subrange(0, i as int) =~= ps);
    }

    /// The trend recorded for a position's display name.
    pub fn trend_of(&self, name: &str) -> (r: Option<Trend>)
        requires
            self.wf(),
        ensures
            r == lookup_of(self.trends@, name@),
    {
        self.trends.lookup(&name.to_owned())
    }

    /// Moves the selection one position down, stopping at the last.
    pub fn select_next(&mut self)
        ensures
            *final(self) == (App {
                selected_position: if old(self).selected_position + 1 < shown_positions(*old(self)) {
                    (old(self).selected_position + 1) as usize
                } else {
                    old(self).selected_position
                },
                ..*old(self)
            }),
    {
        let len = match &self.portfolio {
            Some(p) => p.positions.len(),
            None => 0,
        };
        if len > 0 && self.selected_position < len - 1 {
            self.selected_position = self.selected_position + 1;
        }
    }

    /// Moves the selection one position up, stopping at the first.
    pub fn select_previous(&mut self)
        ensures
            *final(self) == (App {
                selected_position: if old(self).selected_position > 0 {
                    (old(self).selected_position - 1) as usize
                } else {
                    0
                },
                ..*old(self)
            }),
    {
        if self.selected_position > 0 {
            self.selected_position = self.selected_position - 1;
        }
    }

    /// Opens the purchase list of the selected position.
    pub fn enter_edit_mode(&mut self)
        ensures
            old(self).selected_position < shown_positions(*old(self)) ==> *final(self) == (App {
                mode: AppMode::PurchaseList,
                selected_purchase: 0,
                ..*old(self)
            }),
            old(self).selected_position >= shown_positions(*old(self)) ==> *final(self) == *old(self),
    {
        let len = match &self.portfolio {
            Some(p) => p.positions.len(),
            None => 0,
        };
        if self.selected_position < len {
            self.mode = AppMode::PurchaseList;
            self.selected_purchase = 0;
        }
    }

    /// Opens the form for the purchase selected in the list (entries one on,
    /// listed newest first), prefilled with its date; returns that
    /// purchase's index among the position's purchases, for the caller to
    /// prefill quantity and price.
    pub fn enter_edit_purchase_mode(&mut self) -> (r: Option<usize>)
        requires
            old(self).wf(),
        ensures
            r is None ==> *final(self) == *old(self),
            r matches Some(k) ==> {
                &&& old(self).portfolio matches Some(p) && old(self).selected_position < p.positions@.len() && {
                    let lots = p.positions@[old(self).selected_position as int].purchases@;
                    &&& 0 < old(self).selected_purchase <= lots.len()
                    &&& k < lots.len()
                    &&& final(self).purchase_date_input@ == match lots[k as int].date {
                        Some(d) => d@,
                        None => Seq::<char>::empty(),
                    }
                }
                &&& final(self).mode == AppMode::EditPurchase
                &&& final(self).edit_field == EditField::Date
                &&& final(self).portfolio == old(self).portfolio
                &&& final(self).selected_position == old(self).selected_position
                &&& final(self).selected_purchase == old(self).selected_purchase
            },
            (old(self).portfolio matches Some(p) && old(self).selected_position < p.positions@.len()
                && 0 < old(self).selected_purchase <= p.positions@[old(self).selected_position as int].purchases@.len())
                ==> r is Some,
    {
        let (k, date) = match &self.portfolio {
            Some(p) => {
                if self.selected_position >= p.positions.len() {
                    return None;
                }
                let lots = &p.positions[self.selected_position].purchases;
                if self.selected_purchase == 0 || self.selected_purchase > lots.len() {
                    return None;
                }
                let order = purchase_display_order(lots);
                proof {
                    broadcast use vstd::seq_lib::group_to_multiset_ensures;
                    assert(order@.to_multiset().len() == lots@.len());
                }
                let k = order[self.selected_purchase - 1];
                let date = match &lots[k].date {
                    Some(d) => d.clone(),
                    None => String::new(),
                };
                (k, date)
            },
            None => return None,
        };
        self.mode = AppMode::EditPurchase;
        self.edit_field = EditField::Date;
        self.purchase_date_input = date;
        Some(k)
    }

    /// Back to normal mode with every input cleared.
    pub fn exit_edit_mode(&mut self)
        ensures
            final(self).mode == AppMode::Normal,
            final(self).edit_input@.len() == 0,
            final(self).purchase_date_input@.len() == 0,
            final(self).purchase_quantity_input@.len() == 0,
            final(self).purchase_price_input@.len() == 0,
            final(self).portfolio == old(self).portfolio,
            final(self).selected_position == old(self).selected_position,
            final(self).selected_purchase == old(self).selected_purchase,
            final(self).current_tab == old(self).current_tab,
            final(self).previous_values == old(self).previous_values,
            final(self).trends == old(self).trends,
    {
        self.mode = AppMode::Normal;
        self.edit_input = String::new();
        self.purchase_date_input = String::new();
        self.purchase_quantity_input = String::new();
        self.purchase_price_input = String::new();
    }

    /// Moves down the purchase list; entry zero adds a purchase, entries one
    /// on are the selected position's purchases.
    pub fn select_next_purchase(&mut self)
        requires
            old(self).wf(),
        ensures
            *final(self) == (App {
                selected_purchase: match old(self).portfolio {
                    Some(p) => if old(self).selected_position < p.positions@.len()
                        && old(self).selected_purchase < p.positions@[old(self).selected_position as int].purchases@.len() {
                        (old(self).selected_purchase + 1) as usize
                    } else {
                        old(self).selected_purchase
                    },
                    None => old(self).selected_purchase,
                },
                ..*old(self)
            }),
    {
        let mut step = false;
        match &self.portfolio {
            Some(p) => {
                if self.selected_position < p.positions.len()
                    && self.selected_purchase < p.positions[self.selected_position].purchases.len() {
                    step = true;
                }
            },
            None => {},
        }
        if step {
            self.selected_purchase = self.selected_purchase + 1;
        }
    }

    pub fn select_previous_purchase(&mut self)
        ensures
            *final(self) == (App {
                selected_purchase: if old(self).selected_purchase > 0 {
                    (old(self).selected_purchase - 1) as usize
                } else {
                    0
                },
                ..*old(self)
            }),
    {
        if self.selected_purchase > 0 {
            self.selected_purchase = self.selected_purchase - 1;
        }
    }

    /// Opens the empty purchase form at its date field.
    pub fn enter_add_purchase_mode(&mut self)
        ensures
            final(self).mode == AppMode::AddPurchase,
            final(self).edit_field == EditField::Date,
            final(self).purchase_date_input@.len() == 0,
            final(self).purchase_quantity_input@.len() == 0,
            final(self).purchase_price_input@.len() == 0,
            final(self).portfolio == old(self).portfolio,
            final(self).selected_position == old(self).selected_position,
            final(self).selected_purchase == old(self).selected_purchase,
            final(self).previous_values == old(self).previous_values,
            final(self).trends == old(self).trends,
    {
        self.mode = AppMode::AddPurchase;
        self.edit_field = EditField::Date;
        self.purchase_date_input = String::new();
        self.purchase_quantity_input = String::new();
        self.purchase_price_input = String::new();
    }

    pub fn next_edit_field(&mut self)
        ensures
            *final(self) == (App { edit_field: field_after(old(self).edit_field), ..*old(self) }),
    {
        self.edit_field = self.edit_field.next();
    }

    pub fn previous_edit_field(&mut self)
        ensures
            *final(self) == (App { edit_field: field_before(old(self).edit_field), ..*old(self) }),
    {
        self.edit_field = self.edit_field.previous();
    }

    /// The text of the field being typed into.
    pub fn get_current_input(&self) -> (r: &str)
        ensures
            r@ == match self.edit_field {
                EditField::Date => self.purchase_date_input@,
                EditField::Quantity => self.purchase_quantity_input@,
                EditField::Price => self.purchase_price_input@,
            },
    {
        match self.edit_field {
            EditField::Date => self.purchase_date_input.as_str(),
            EditField::Quantity => self.purchase_quantity_input.as_str(),
            EditField::Price => self.purchase_price_input.as_str(),
        }
    }

    /// The field being typed into, for editing.
    pub fn get_current_input_mut(&mut self) -> (r: &mut String)
        ensures
            *r == match old(self).edit_field {
                EditField::Date => old(self).purchase_date_input,
                EditField::Quantity => old(self).purchase_quantity_input,
                EditField::Price => old(self).purchase_price_input,
            },
            *final(self) == match old(self).edit_field {
                EditField::Date => App { purchase_date_input: *final(r), ..*old(self) },
                EditField::Quantity => App { purchase_quantity_input: *final(r), ..*old(self) },
                EditField::Price => App { purchase_price_input: *final(r), ..*old(self) },
            },
    {
        match self.edit_field {
            EditField::Date => &mut self.purchase_date_input,
            EditField::Quantity => &mut self.purchase_quantity_input,
            EditField::Price => &mut self.purchase_price_input,
        }
    }
}

} // verus!
