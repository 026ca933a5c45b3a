//! The diagnostics registry: an ordered collection of named entries.

use crate::aggregate::Aggregate;
use crate::formatting::ValueFormat;
use crate::order::lex_lt;
use crate::style::{Color, TextAlign};
use vstd::prelude::*;

verus! {

/// The largest number of entries a registry may hold.
pub const MAX_ENTRIES: usize = 0x10_0000;

/// One registered diagnostic: its identity, presentation and the
/// synchronization state that ties it to the rendered span list.
#[derive(Debug)]
pub struct DiagnosticsText {
    /// Display label; also the registry key.
    pub name: String,
    /// Key into the external sample store.
    pub path: String,
    /// How the sample history becomes the displayed scalar.
    pub agg: Aggregate,
    /// How the scalar becomes text.
    pub format: ValueFormat,
    /// Whether the entry is rendered at all.
    pub show: bool,
    /// Whether the label is rendered beside the value.
    pub show_name: bool,
    /// Value color and label color.
    pub colors: (Color, Color),
    /// An in-place visual edit (colors, label visibility) is pending.
    pub edit: bool,
    /// A structural change is pending; only a rebuild clears it.
    pub rebuild: bool,
    /// Position of the value span in the rendered span list; assigned
    /// during a rebuild, and only meaningful until the next change.
    pub index: Option<usize>,
}

/// The mathematical image of a [`DiagnosticsText`].
#[verifier::ext_equal]
pub ghost struct EntryView {
    /// Name as a character sequence.
    pub name: Seq<char>,
    /// Sample-store key as a character sequence.
    pub path: Seq<char>,
    /// Aggregation policy.
    pub agg: Aggregate,
    /// Formatter.
    pub format: ValueFormat,
    /// Visibility flag.
    pub show: bool,
    /// Label visibility flag.
    pub show_name: bool,
    /// Color of the value span.
    pub value_color: Color,
    /// Color of the label span.
    pub label_color: Color,
    /// Pending visual edit flag.
    pub edit: bool,
    /// Pending structural change flag.
    pub rebuild: bool,
    /// Assigned span position.
    pub index: Option<int>,
}

impl View for DiagnosticsText {
    type V = EntryView;

    open spec fn view(&self) -> EntryView {
        EntryView {
            name: self.name@,
            path: self.path@,
            agg: self.agg,
            format: self.format,
            show: self.show,
            show_name: self.show_name,
            value_color: self.colors.0,
            label_color: self.colors.1,
            edit: self.edit,
            rebuild: self.rebuild,
            index: match self.index {
                Some(i) => Some(i as int),
                None => None,
            },
        }
    }
}

/// The registry of on-screen diagnostics.
pub struct ScreenDiagnostics {
    /// The entries, sorted by name in ascending lexicographic order.
    pub diagnostics: Vec<DiagnosticsText>,
    /// Justification of the rendered block.
    pub text_alignment: TextAlign,
    /// True whenever the rendered span list no longer matches the
    /// entries structurally and must be rebuilt.
    pub layout_changed: bool,
}

/// The mathematical image of a [`ScreenDiagnostics`].
#[verifier::ext_equal]
pub ghost struct RegistryView {
    /// Entry images, in registry order.
    pub entries: Seq<EntryView>,
    /// Block justification.
    pub alignment: TextAlign,
    /// Global layout flag.
    pub layout_dirty: bool,
}

impl View for ScreenDiagnostics {
    type V = RegistryView;

    open spec fn view(&self) -> RegistryView {
        RegistryView {
            entries: self.diagnostics@.map_values(|e: DiagnosticsText| e@),
            alignment: self.text_alignment,
            layout_dirty: self.layout_changed,
        }
    }
}

/// The number of visible entries among `s[i..]`.
pub open spec fn vis_from(s: Seq<EntryView>, i: int) -> nat
    decreases s.len() - i,
{
    if i < 0 || i >= s.len() {
        0
    } else {
        (if s[i].show {
            1nat
        } else {
            0nat
        }) + vis_from(s, i + 1)
    }
}

/// Entry `i` carries the span position a rebuild would assign it: visible
/// entries point at their value span, invisible ones at nothing.
pub open spec fn entry_synced(s: Seq<EntryView>, i: int) -> bool {
    if s[i].show {
        s[i].index == Some(2 * vis_from(s, i + 1) as int)
    } else {
        s[i].index is None
    }
}

/// No entry awaits a structural rebuild.
pub open spec fn all_clean(s: Seq<EntryView>) -> bool {
    forall|i: int| 0 <= i < s.len() ==> !(#[trigger] s[i]).rebuild
}

/// Every entry carries its rebuild-assigned span position.
pub open spec fn all_synced(s: Seq<EntryView>) -> bool {
    forall|i: int| 0 <= i < s.len() ==> #[trigger] entry_synced(s, i)
}

/// Entry names are strictly ascending.
pub open spec fn sorted_entries(s: Seq<EntryView>) -> bool {
    forall|i: int, j: int|
        0 <= i < j < s.len() ==> lex_lt(#[trigger] s[i].name, #[trigger] s[j].name)
}

impl RegistryView {
    /// Entry names are strictly ascending.
    pub open spec fn sorted(self) -> bool {
        sorted_entries(self.entries)
    }

    /// No entry awaits a structural rebuild.
    pub open spec fn entries_clean(self) -> bool {
        all_clean(self.entries)
    }

    /// Every entry carries its rebuild-assigned span position.
    pub open spec fn synced(self) -> bool {
        all_synced(self.entries)
    }

    /// The registry invariant: entries sorted and bounded, and, while no
    /// rebuild is pending, every entry clean and consistently indexed.
    pub open spec fn wf(self) -> bool {
        &&& self.sorted()
        &&& self.entries.len() <= MAX_ENTRIES
        &&& !self.layout_dirty ==> self.entries_clean() && self.synced()
    }
}

/// The entry a fresh registration carries: instant aggregation, the
/// default two-decimal formatter, visible, labeled, red-on-white colors,
/// and a pending rebuild.
pub open spec fn default_entry(name: Seq<char>, path: Seq<char>) -> EntryView {
    EntryView {
        name: name,
        path: path,
        agg: Aggregate::Value,
        format: ValueFormat { decimals: 2, pad_width: 0, percent: false },
        show: true,
        show_name: true,
        value_color: Color { red: 255, green: 0, blue: 0, alpha: 255 },
        label_color: Color { red: 255, green: 255, blue: 255, alpha: 255 },
        edit: false,
        rebuild: true,
        index: None,
    }
}

/// The first position whose entry name is not below `name`; equivalently,
/// where an entry named `name` belongs in the sorted order.
pub open spec fn insert_pos(s: Seq<EntryView>, name: Seq<char>) -> int
    decreases s.len(),
{
    if s.len() == 0 {
        0
    } else if !lex_lt(s[0].name, name) {
        0
    } else {
        1 + insert_pos(s.drop_first(), name)
    }
}

/// The first index whose entry is named `name`, or `-1` if there is none.
pub open spec fn find_name(s: Seq<EntryView>, name: Seq<char>) -> int
    decreases s.len(),
{
    if s.len() == 0 {
        -1
    } else if s[0].name == name {
        0
    } else {
        let r = find_name(s.drop_first(), name);
        if r < 0 {
            -1
        } else {
            r + 1
        }
    }
}

/// Some entry is named `name`.
pub open spec fn has_name(s: Seq<EntryView>, name: Seq<char>) -> bool {
    find_name(s, name) >= 0
}

/// What registering `name` leaves behind: a fresh default entry replaces a
/// like-named one, or is inserted at its sorted position.
pub open spec fn spec_add(s: Seq<EntryView>, name: Seq<char>, path: Seq<char>) -> Seq<EntryView> {
    let p = insert_pos(s, name);
    if p < s.len() && s[p].name == name {
        s.update(p, default_entry(name, path))
    } else {
        s.insert(p, default_entry(name, path))
    }
}

/// Every entry named `name` (at most one, in a sorted registry) mapped
/// through `f`; all others unchanged.
pub open spec fn map_named(
    s: Seq<EntryView>,
    name: Seq<char>,
    f: spec_fn(EntryView) -> EntryView,
) -> Seq<EntryView> {
    Seq::new(
        s.len(),
        |i: int|
            if s[i].name == name {
                f(s[i])
            } else {
                s[i]
            },
    )
}

/// What removing `name` leaves behind.
pub open spec fn spec_remove(s: Seq<EntryView>, name: Seq<char>) -> Seq<EntryView> {
    let i = find_name(s, name);
    if i >= 0 {
        s.remove(i)
    } else {
        s
    }
}

/// `insert_pos` lands in range, after every smaller name and before every
/// name not smaller.
pub proof fn lemma_insert_pos_props(s: Seq<EntryView>, name: Seq<char>)
    ensures
        0 <= insert_pos(s, name) <= s.len(),
        forall|j: int| 0 <= j < insert_pos(s, name) ==> lex_lt(#[trigger] s[j].name, name),
        insert_pos(s, name) < s.len() ==> !lex_lt(s[insert_pos(s, name)].name, name),
    decreases s.len(),
{
    if s.len() > 0 && lex_lt(s[0].name, name) {
        lemma_insert_pos_props(s.drop_first(), name);
        assert forall|j: int| 0 <= j < insert_pos(s, name) implies lex_lt(
            #[trigger] s[j].name,
            name,
        ) by {
            if j > 0 {
                assert(s[j] == s.drop_first()[j - 1]);
            }
        }
    }
}

/// A scan that passed every smaller name and stopped at `i` found the
/// insertion position.
pub proof fn lemma_insert_pos_at(s: Seq<EntryView>, name: Seq<char>, i: int)
    requires
        0 <= i <= s.len(),
        forall|j: int| 0 <= j < i ==> lex_lt(#[trigger] s[j].name, name),
        i < s.len() ==> !lex_lt(s[i].name, name),
    ensures
        insert_pos(s, name) == i,
    decreases s.len(),
{
    if s.len() > 0 && lex_lt(s[0].name, name) {
        assert forall|j: int| 0 <= j < i - 1 implies lex_lt(
            #[trigger] s.drop_first()[j].name,
            name,
        ) by {
            assert(s.drop_first()[j] == s[j + 1]);
        }
        lemma_insert_pos_at(s.drop_first(), name, i - 1);
    }
}

/// `find_name` lands in range, on a match, and after no earlier match.
pub proof fn lemma_find_name_props(s: Seq<EntryView>, name: Seq<char>)
    ensures
        -1 <= find_name(s, name) < s.len(),
        find_name(s, name) >= 0 ==> s[find_name(s, name)].name == name,
        forall|j: int|
            0 <= j < s.len() && #[trigger] s[j].name == name ==> find_name(s, name) >= 0
                && find_name(s, name) <= j,
    decreases s.len(),
{
    if s.len() > 0 && s[0].name != name {
        lemma_find_name_props(s.drop_first(), name);
        assert forall|j: int|
            0 <= j < s.len() && #[trigger] s[j].name == name implies find_name(s, name) >= 0
            && find_name(s, name) <= j by {
            assert(s.drop_first()[j - 1] == s[j]);
        }
    }
}

/// A scan that passed every other name and stopped on a match at `i`
/// found the first match.
pub proof fn lemma_find_name_at(s: Seq<EntryView>, name: Seq<char>, i: int)
    requires
        0 <= i < s.len(),
        s[i].name == name,
        forall|j: int| 0 <= j < i ==> (#[trigger] s[j].name) != name,
    ensures
        find_name(s, name) == i,
    decreases s.len(),
{
    if i > 0 {
        assert forall|j: int| 0 <= j < i - 1 implies (#[trigger] s.drop_first()[j].name)
            != name by {
            assert(s.drop_first()[j] == s[j + 1]);
        }
        assert(s.drop_first()[i - 1] == s[i]);
        lemma_find_name_at(s.drop_first(), name, i - 1);
    }
}

/// A scan that matched nothing found nothing.
pub proof fn lemma_find_name_none(s: Seq<EntryView>, name: Seq<char>)
    requires
        forall|j: int| 0 <= j < s.len() ==> (#[trigger] s[j].name) != name,
    ensures
        find_name(s, name) == -1,
    decreases s.len(),
{
    if s.len() > 0 {
        assert forall|j: int| 0 <= j < s.len() - 1 implies (#[trigger] s.drop_first()[j].name)
            != name by {
            assert(s.drop_first()[j] == s[j + 1]);
        }
        lemma_find_name_none(s.drop_first(), name);
    }
}

/// Finding a name looks at names alone.
pub proof fn lemma_find_name_same_names(a: Seq<EntryView>, b: Seq<EntryView>, name: Seq<char>)
    requires
        a.len() == b.len(),
        forall|j: int| 0 <= j < a.len() ==> (#[trigger] a[j]).name == b[j].name,
    ensures
        find_name(a, name) == find_name(b, name),
    decreases a.len(),
{
    if a.len() > 0 && a[0].name != name {
        assert forall|j: int|
            0 <= j < a.drop_first().len() implies (#[trigger] a.drop_first()[j]).name
            == b.drop_first()[j].name by {
            assert(a.drop_first()[j] == a[j + 1]);
            assert(b.drop_first()[j] == b[j + 1]);
        }
        lemma_find_name_same_names(a.drop_first(), b.drop_first(), name);
    }
}

/// In a sorted registry no two entries share a name.
pub proof fn lemma_sorted_unique(s: Seq<EntryView>, i: int, j: int)
    requires
        sorted_entries(s),
        0 <= i < s.len(),
        0 <= j < s.len(),
        i != j,
    ensures
        s[i].name != s[j].name,
{
    if i < j {
        crate::order::lemma_lex_trichotomy(s[i].name, s[j].name);
    } else {
        crate::order::lemma_lex_trichotomy(s[j].name, s[i].name);
    }
}

/// Swapping entry fields other than `show` leaves every visibility count
/// unchanged.
pub proof fn lemma_vis_from_same(a: Seq<EntryView>, b: Seq<EntryView>, i: int)
    requires
        a.len() == b.len(),
        forall|k: int| 0 <= k < a.len() ==> (#[trigger] a[k]).show == b[k].show,
    ensures
        vis_from(a, i) == vis_from(b, i),
    decreases a.len() - i,
{
    if 0 <= i && i < a.len() {
        lemma_vis_from_same(a, b, i + 1);
    }
}

/// Finds the first entry named `name`, scanning in registry order.
fn find_entry(v: &Vec<DiagnosticsText>, name: &str) -> (r: Option<usize>)
    ensures
        ({
            let s = v@.map_values(|e: DiagnosticsText| e@);
            match r {
                Some(i) => 0 <= i < s.len() && find_name(s, name@) == i,
                None => find_name(s, name@) == -1,
            }
        }),
{
    let ghost s = v@.map_values(|e: DiagnosticsText| e@);
    let mut i: usize = 0;
    while i < v.len()
        invariant
            i <= v@.len(),
            s == v@.map_values(|e: DiagnosticsText| e@),
            forall|j: int| 0 <= j < i ==> (#[trigger] s[j].name) != name@,
        decreases v@.len() - i,
    {
        let cmp = crate::order::str_lex_cmp(v[i].name.as_str(), name);
        if cmp == 1 {
            proof {
                lemma_find_name_at(s, name@, i as int);
            }
            return Some(i);
        }
        i = i + 1;
    }
    proof {
        lemma_find_name_none(s, name@);
    }
    None
}

/// Finds where an entry named `name` belongs in the sorted order, and
/// whether the entry at that position already carries that name.
fn scan_insert_pos(v: &Vec<DiagnosticsText>, name: &str) -> (r: (usize, bool))
    requires
        sorted_entries(v@.map_values(|e: DiagnosticsText| e@)),
    ensures
        ({
            let s = v@.map_values(|e: DiagnosticsText| e@);
            &&& r.0 as int == insert_pos(s, name@)
            &&& r.0 <= v@.len()
            &&& (r.1 <==> ((r.0 as int) < s.len() && s[r.0 as int].name == name@))
        }),
{
    let ghost s = v@.map_values(|e: DiagnosticsText| e@);
    let len = v.len();
    let mut i: usize = 0;
    while i < len
        invariant
            i <= len,
            len == s.len(),
            s == v@.map_values(|e: DiagnosticsText| e@),
            forall|j: int| 0 <= j < i ==> lex_lt(#[trigger] s[j].name, name@),
        decreases len - i,
    {
        let cmp = crate::order::str_lex_cmp(v[i].name.as_str(), name);
        if cmp == 1 {
            proof {
                crate::order::lemma_lex_irrefl(name@);
                lemma_insert_pos_at(s, name@, i as int);
            }
            return (i, true);
        } else if cmp == 2 {
            proof {
                crate::order::lemma_lex_trichotomy(s[i as int].name, name@);
                lemma_insert_pos_at(s, name@, i as int);
            }
            return (i, false);
        }
        proof {
            assert(s[i as int] == v@[i as int]@);
            crate::order::lemma_lex_trichotomy(s[i as int].name, name@);
        }
        i = i + 1;
    }
    proof {
        lemma_insert_pos_at(s, name@, len as int);
    }
    (len, false)
}

/// A builder bound to one entry name, through which chained configuration
/// calls mutate that entry in place.  Calls on a name with no entry are
/// silent no-ops.  The builder owns the registry; [`DiagnosticsTextBuilder::finish`]
/// hands it back.
pub struct DiagnosticsTextBuilder {
    /// The registry being configured.
    pub registry: ScreenDiagnostics,
    /// The name the builder is bound to.
    pub k: String,
}

impl ScreenDiagnostics {
    /// Registers a diagnostic to be displayed and returns a builder bound
    /// to it for chained configuration.
    ///
    /// * `name` - the label displayed on screen; also the registry key.
    /// * `path` - the key under which the sample store holds its history.
    ///
    /// A like-named entry is replaced wholesale.  The fresh entry shows the
    /// most recent sample with two decimals, visible and labeled, in the
    /// default colors, and forces a rebuild.
    pub fn add(self, name: String, path: String) -> (b: DiagnosticsTextBuilder)
        requires
            self@.wf(),
            self@.entries.len() < MAX_ENTRIES,
        ensures
            b.registry@.entries == spec_add(self@.entries, name@, path@),
            b.registry@.alignment == self@.alignment,
            b.registry@.layout_dirty,
            b.registry@.wf(),
            b.k@ == name@,
    {
        let ghost s = self@.entries;
        let ghost pv = path@;
        let mut reg = self;
        let entry = DiagnosticsText {
            name: name.clone(),
            path: path,
            agg: Aggregate::Value,
            format: ValueFormat { decimals: 2, pad_width: 0, percent: false },
            show: true,
            show_name: true,
            colors: (Color::red(), Color::white()),
            edit: false,
            rebuild: true,
            index: None,
        };
        let (i, equal_here) = scan_insert_pos(&reg.diagnostics, name.as_str());
        if equal_here {
            reg.diagnostics.remove(i);
            reg.diagnostics.insert(i, entry);
            proof {
                s.remove_ensures(i as int);
                s.remove(i as int).insert_ensures(i as int, default_entry(name@, pv));
                assert(reg.diagnostics@.map_values(|e: DiagnosticsText| e@) =~= s.update(
                    i as int,
                    default_entry(name@, pv),
                ));
            }
        } else {
            reg.diagnostics.insert(i, entry);
            proof {
                assert(reg.diagnostics@.map_values(|e: DiagnosticsText| e@) =~= s.insert(
                    i as int,
                    default_entry(name@, pv),
                ));
            }
        }
        reg.layout_changed = true;
        proof {
            lemma_add_sorted(self@, name@, pv);
            assert(reg.diagnostics@.map_values(|e: DiagnosticsText| e@) =~= spec_add(
                s,
                name@,
                pv,
            ));
        }
        DiagnosticsTextBuilder { registry: reg, k: name }
    }

    /// Returns a builder bound to `name` without touching the registry.
    /// Builder calls on a name that has no entry are silent no-ops.
    pub fn modify(self, name: String) -> (b: DiagnosticsTextBuilder)
        ensures
            b.registry == self,
            b.k@ == name@,
    {
        DiagnosticsTextBuilder { registry: self, k: name }
    }

    /// Removes the entry named `name`, if any, and schedules a rebuild so
    /// the vanished spans disappear on the next tick.  An unknown name is
    /// a silent no-op.
    pub fn remove(&mut self, name: String)
        requires
            old(self)@.wf(),
        ensures
            final(self)@.entries == spec_remove(old(self)@.entries, name@),
            final(self)@.alignment == old(self)@.alignment,
            final(self)@.layout_dirty == (old(self)@.layout_dirty || has_name(
                old(self)@.entries,
                name@,
            )),
            final(self)@.wf(),
    {
        let ghost s = self@.entries;
        match find_entry(&self.diagnostics, name.as_str()) {
            Some(i) => {
                self.diagnostics.remove(i);
                self.layout_changed = true;
                proof {
                    assert(self@.entries =~= s.remove(i as int));
                    assert forall|a: int, b: int|
                        0 <= a < b < self@.entries.len() implies lex_lt(
                        #[trigger] self@.entries[a].name,
                        #[trigger] self@.entries[b].name,
                    ) by {
                        let oa = if a < i as int {
                            a
                        } else {
                            a + 1
                        };
                        let ob = if b < i as int {
                            b
                        } else {
                            b + 1
                        };
                        assert(self@.entries[a] == s[oa]);
                        assert(self@.entries[b] == s[ob]);
                    }
                }
            },
            None => {
                proof {
                    assert(self@.entries =~= s);
                }
            },
        }
    }

    /// Sets the justification of the rendered block and forces a rebuild.
    pub fn set_alignment(&mut self, align: TextAlign)
        requires
            old(self)@.wf(),
        ensures
            final(self)@.entries == old(self)@.entries,
            final(self)@.alignment == align,
            final(self)@.layout_dirty,
            final(self)@.wf(),
    {
        self.text_alignment = align;
        self.layout_changed = true;
    }
}

impl DiagnosticsTextBuilder {
    /// Sets the aggregation policy of the bound entry and schedules a
    /// rebuild.
    pub fn aggregate(self, agg: Aggregate) -> (r: DiagnosticsTextBuilder)
        requires
            self.registry@.wf(),
        ensures
            r.registry@.entries == map_named(
                self.registry@.entries,
                self.k@,
                |e: EntryView| EntryView { agg: agg, rebuild: true, ..e },
            ),
            r.registry@.alignment == self.registry@.alignment,
            r.registry@.layout_dirty == (self.registry@.layout_dirty || has_name(
                self.registry@.entries,
                self.k@,
            )),
            r.registry@.wf(),
            r.k@ == self.k@,
    {
        let DiagnosticsTextBuilder { registry: mut reg, k } = self;
        let ghost s = reg@.entries;
        let ghost f = |e: EntryView| EntryView { agg: agg, rebuild: true, ..e };
        match find_entry(&reg.diagnostics, k.as_str()) {
            Some(i) => {
                reg.diagnostics[i].agg = agg;
                reg.diagnostics[i].rebuild = true;
                reg.layout_changed = true;
                proof {
                    assert(reg@.entries =~= s.update(i as int, f(s[i as int])));
                    lemma_found_update(s, k@, f, i as int, reg@.entries);
                }
            },
            None => {
                proof {
                    lemma_missing_update(s, k@, f, reg@.entries);
                }
            },
        }
        DiagnosticsTextBuilder { registry: reg, k }
    }

    /// Sets the formatter of the bound entry and schedules a rebuild.
    pub fn format(self, format: ValueFormat) -> (r: DiagnosticsTextBuilder)
        requires
            self.registry@.wf(),
        ensures
            r.registry@.entries == map_named(
                self.registry@.entries,
                self.k@,
                |e: EntryView| EntryView { format: format, rebuild: true, ..e },
            ),
            r.registry@.alignment == self.registry@.alignment,
            r.registry@.layout_dirty == (self.registry@.layout_dirty || has_name(
                self.registry@.entries,
                self.k@,
            )),
            r.registry@.wf(),
            r.k@ == self.k@,
    {
        let DiagnosticsTextBuilder { registry: mut reg, k } = self;
        let ghost s = reg@.entries;
        let ghost f = |e: EntryView| EntryView { format: format, rebuild: true, ..e };
        match find_entry(&reg.diagnostics, k.as_str()) {
            Some(i) => {
                reg.diagnostics[i].format = format;
                reg.diagnostics[i].rebuild = true;
                reg.layout_changed = true;
                proof {
                    assert(reg@.entries =~= s.update(i as int, f(s[i as int])));
                    lemma_found_update(s, k@, f, i as int, reg@.entries);
                }
            },
            None => {
                proof {
                    lemma_missing_update(s, k@, f, reg@.entries);
                }
            },
        }
        DiagnosticsTextBuilder { registry: reg, k }
    }

    /// Toggles whether the bound entry is displayed at all, scheduling a
    /// rebuild so its spans appear or vanish on the next tick.
    pub fn toggle(self) -> (r: DiagnosticsTextBuilder)
        requires
            self.registry@.wf(),
        ensures
            r.registry@.entries == map_named(
                self.registry@.entries,
                self.k@,
                |e: EntryView| EntryView { show: !e.show, rebuild: true, ..e },
            ),
            r.registry@.alignment == self.registry@.alignment,
            r.registry@.layout_dirty == (self.registry@.layout_dirty || has_name(
                self.registry@.entries,
                self.k@,
            )),
            r.registry@.wf(),
            r.k@ == self.k@,
    {
        let DiagnosticsTextBuilder { registry: mut reg, k } = self;
        let ghost s = reg@.entries;
        let ghost f = |e: EntryView| EntryView { show: !e.show, rebuild: true, ..e };
        match find_entry(&reg.diagnostics, k.as_str()) {
            Some(i) => {
                let shown = reg.diagnostics[i].show;
                reg.diagnostics[i].show = !shown;
                reg.diagnostics[i].rebuild = true;
                reg.layout_changed = true;
                proof {
                    assert(reg@.entries =~= s.update(i as int, f(s[i as int])));
                    lemma_found_update(s, k@, f, i as int, reg@.entries);
                }
            },
            None => {
                proof {
                    lemma_missing_update(s, k@, f, reg@.entries);
                }
            },
        }
        DiagnosticsTextBuilder { registry: reg, k }
    }

    /// Sets the color of the bound entry's value span; an in-place edit,
    /// no rebuild.
    pub fn diagnostic_color(self, color: Color) -> (r: DiagnosticsTextBuilder)
        requires
            self.registry@.wf(),
        ensures
            r.registry@.entries == map_named(
                self.registry@.entries,
                self.k@,
                |e: EntryView| EntryView { value_color: color, edit: true, ..e },
            ),
            r.registry@.alignment == self.registry@.alignment,
            r.registry@.layout_dirty == self.registry@.layout_dirty,
            r.registry@.wf(),
            r.k@ == self.k@,
    {
        let DiagnosticsTextBuilder { registry: mut reg, k } = self;
        let ghost s = reg@.entries;
        let ghost f = |e: EntryView| EntryView { value_color: color, edit: true, ..e };
        match find_entry(&reg.diagnostics, k.as_str()) {
            Some(i) => {
                reg.diagnostics[i].colors.0 = color;
                reg.diagnostics[i].edit = true;
                proof {
                    assert(reg@.entries =~= s.update(i as int, f(s[i as int])));
                    lemma_found_update(s, k@, f, i as int, reg@.entries);
                    if !reg@.layout_dirty {
                        lemma_same_structure_sync(s, reg@.entries);
                    }
                }
            },
            None => {
                proof {
                    lemma_missing_update(s, k@, f, reg@.entries);
                }
            },
        }
        DiagnosticsTextBuilder { registry: reg, k }
    }

    /// Sets the color of the bound entry's label span; an in-place edit,
    /// no rebuild.
    pub fn name_color(self, color: Color) -> (r: DiagnosticsTextBuilder)
        requires
            self.registry@.wf(),
        ensures
            r.registry@.entries == map_named(
                self.registry@.entries,
                self.k@,
                |e: EntryView| EntryView { label_color: color, edit: true, ..e },
            ),
            r.registry@.alignment == self.registry@.alignment,
            r.registry@.layout_dirty == self.registry@.layout_dirty,
            r.registry@.wf(),
            r.k@ == self.k@,
    {
        let DiagnosticsTextBuilder { registry: mut reg, k } = self;
        let ghost s = reg@.entries;
        let ghost f = |e: EntryView| EntryView { label_color: color, edit: true, ..e };
        match find_entry(&reg.diagnostics, k.as_str()) {
            Some(i) => {
                reg.diagnostics[i].colors.1 = color;
                reg.diagnostics[i].edit = true;
                proof {
                    assert(reg@.entries =~= s.update(i as int, f(s[i as int])));
                    lemma_found_update(s, k@, f, i as int, reg@.entries);
                    if !reg@.layout_dirty {
                        lemma_same_structure_sync(s, reg@.entries);
                    }
                }
            },
            None => {
                proof {
                    lemma_missing_update(s, k@, f, reg@.entries);
                }
            },
        }
        DiagnosticsTextBuilder { registry: reg, k }
    }

    /// Toggles whether the bound entry's label is rendered beside its
    /// value; an in-place edit, no rebuild.
    pub fn toggle_name(self) -> (r: DiagnosticsTextBuilder)
        requires
            self.registry@.wf(),
        ensures
            r.registry@.entries == map_named(
                self.registry@.entries,
                self.k@,
                |e: EntryView| EntryView { show_name: !e.show_name, edit: true, ..e },
            ),
            r.registry@.alignment == self.registry@.alignment,
            r.registry@.layout_dirty == self.registry@.layout_dirty,
            r.registry@.wf(),
            r.k@ == self.k@,
    {
        let DiagnosticsTextBuilder { registry: mut reg, k } = self;
        let ghost s = reg@.entries;
        let ghost f = |e: EntryView| EntryView { show_name: !e.show_name, edit: true, ..e };
        match find_entry(&reg.diagnostics, k.as_str()) {
            Some(i) => {
                let labeled = reg.diagnostics[i].show_name;
                reg.diagnostics[i].show_name = !labeled;
                reg.diagnostics[i].edit = true;
                proof {
                    assert(reg@.entries =~= s.update(i as int, f(s[i as int])));
                    lemma_found_update(s, k@, f, i as int, reg@.entries);
                    if !reg@.layout_dirty {
                        lemma_same_structure_sync(s, reg@.entries);
                    }
                }
            },
            None => {
                proof {
                    lemma_missing_update(s, k@, f, reg@.entries);
                }
            },
        }
        DiagnosticsTextBuilder { registry: reg, k }
    }

    /// Hands the configured registry back.
    pub fn finish(self) -> (r: ScreenDiagnostics)
        ensures
            r == self.registry,
    {
        self.registry
    }
}

/// Changes that keep every entry's visibility and span position also keep
/// the whole sequence consistently indexed.
pub proof fn lemma_same_structure_sync(s: Seq<EntryView>, t: Seq<EntryView>)
    requires
        t.len() == s.len(),
        forall|j: int|
            0 <= j < s.len() ==> (#[trigger] t[j]).show == s[j].show && t[j].index == s[j].index,
        all_synced(s),
    ensures
        all_synced(t),
{
    assert forall|j: int| 0 <= j < t.len() implies #[trigger] entry_synced(t, j) by {
        lemma_vis_from_same(s, t, j + 1);
        assert(entry_synced(s, j));
    }
}

/// After a found entry `i` was mapped through `f` in place, the entry
/// sequence `t` is exactly `map_named`, still sorted, with every name,
/// and with `show` wherever `f` keeps it.
proof fn lemma_found_update(
    s: Seq<EntryView>,
    name: Seq<char>,
    f: spec_fn(EntryView) -> EntryView,
    i: int,
    t: Seq<EntryView>,
)
    requires
        sorted_entries(s),
        0 <= i < s.len(),
        find_name(s, name) == i,
        t == s.update(i, f(s[i])),
        f(s[i]).name == s[i].name,
    ensures
        t == map_named(s, name, f),
        sorted_entries(t),
        t.len() == s.len(),
        forall|j: int| 0 <= j < t.len() ==> (#[trigger] t[j]).name == s[j].name,
{
    lemma_find_name_props(s, name);
    assert forall|j: int| 0 <= j < s.len() && j != i implies (#[trigger] s[j]).name != name by {
        lemma_sorted_unique(s, i, j);
    }
    assert(t =~= map_named(s, name, f));
    assert forall|a: int, b: int| 0 <= a < b < t.len() implies lex_lt(
        #[trigger] t[a].name,
        #[trigger] t[b].name,
    ) by {
        assert(t[a].name == s[a].name);
        assert(t[b].name == s[b].name);
    }
}

/// When no entry carries `name`, `map_named` changes nothing.
proof fn lemma_missing_update(
    s: Seq<EntryView>,
    name: Seq<char>,
    f: spec_fn(EntryView) -> EntryView,
    t: Seq<EntryView>,
)
    requires
        find_name(s, name) == -1,
        t == s,
    ensures
        t == map_named(s, name, f),
        !has_name(s, name),
{
    lemma_find_name_props(s, name);
    assert forall|j: int| 0 <= j < s.len() implies (#[trigger] s[j]).name != name by {
        if s[j].name == name {
            assert(find_name(s, name) >= 0);
        }
    }
    assert(t =~= map_named(s, name, f));
}

/// Adding an entry to a sorted registry keeps it sorted and grows it by at
/// most one.
pub proof fn lemma_add_sorted(r: RegistryView, name: Seq<char>, path: Seq<char>)
    requires
        r.sorted(),
    ensures
        spec_add(r.entries, name, path).len() <= r.entries.len() + 1,
        (RegistryView {
            entries: spec_add(r.entries, name, path),
            alignment: r.alignment,
            layout_dirty: true,
        }).sorted(),
{
    let s = r.entries;
    let p = insert_pos(s, name);
    lemma_insert_pos_props(s, name);
    let t = spec_add(s, name, path);
    if p < s.len() && s[p].name == name {
        assert forall|a: int, b: int| 0 <= a < b < t.len() implies lex_lt(
            #[trigger] t[a].name,
            #[trigger] t[b].name,
        ) by {
            assert(t[a].name == s[a].name);
            assert(t[b].name == s[b].name);
        }
    } else {
        if p < s.len() {
            crate::order::lemma_lex_trichotomy(name, s[p].name);
        }
        s.insert_ensures(p, default_entry(name, path));
        assert forall|a: int, b: int| 0 <= a < b < t.len() implies lex_lt(
            #[trigger] t[a].name,
            #[trigger] t[b].name,
        ) by {
            if a < p && b < p {
                assert(t[a] == s[a] && t[b] == s[b]);
            } else if a < p && b == p {
                assert(t[a] == s[a]);
            } else if a < p && b > p {
                assert(t[a] == s[a] && t[b] == s[b - 1]);
            } else if a == p && b > p {
                assert(t[b] == s[b - 1]);
                if b - 1 > p {
                    crate::order::lemma_lex_trans(name, s[p].name, s[b - 1].name);
                }
            } else {
                assert(t[a] == s[a - 1] && t[b] == s[b - 1]);
            }
        }
    }
}

impl Default for ScreenDiagnostics {
    /// An empty registry: no entries, left-aligned, nothing to rebuild.
    fn default() -> (r: ScreenDiagnostics)
        ensures
            r@ == (RegistryView {
                entries: Seq::<EntryView>::empty(),
                alignment: TextAlign::Left,
                layout_dirty: false,
            }),
            r@.wf(),
    {
        let r = ScreenDiagnostics {
            diagnostics: Vec::new(),
            text_alignment: TextAlign::Left,
            layout_changed: false,
        };
        proof {
            assert(r@.entries =~= Seq::<EntryView>::empty());
            assert(r@ =~= RegistryView {
                entries: Seq::<EntryView>::empty(),
                alignment: TextAlign::Left,
                layout_dirty: false,
            });
        }
        r
    }
}

} // verus!
