//! The workshop tab: formatting of item figures and the editor's fields.
use vstd::prelude::*;
use vstd::string::*;
use crate::steam::items::{
    visibility_code, visibility_code_spec, Visibility, WorkshopItem, WorkshopQueryResult,
};
use crate::text::{chars_of, decimal, digit_char, push_decimal, push_digit, trim, trim_bounds};

verus! {

/// The unit a size of `b` bytes is shown in: 0 for bytes, 1 for KB, 2 for MB, 3 for GB.
pub open spec fn size_unit_index(b: u32) -> nat {
    if b >= 1073741824 {
        3
    } else if b >= 1048576 {
        2
    } else if b >= 1024 {
        1
    } else {
        0
    }
}

/// The number of bytes in unit `i`.
pub open spec fn unit_bytes(i: nat) -> nat {
    if i == 0 {
        1
    } else if i == 1 {
        1024
    } else if i == 2 {
        1048576
    } else {
        1073741824
    }
}

/// The name of unit `i`.
pub open spec fn unit_name(i: nat) -> Seq<char> {
    if i == 0 {
        "B"@
    } else if i == 1 {
        "KB"@
    } else if i == 2 {
        "MB"@
    } else {
        "GB"@
    }
}

/// `x / d` in tenths, rounded to the nearest tenth, a tie going to the even tenth.
pub open spec fn tenths_rounded(x: nat, d: nat) -> nat {
    let q = (10 * x) / d;
    let r = (10 * x) % d;
    if 2 * r > d || (2 * r == d && q % 2 == 1) {
        q + 1
    } else {
        q
    }
}

/// A file size as shown on an item: `0 B`, or the size in the largest unit that is at
/// most the size, with one decimal, then the unit.
pub open spec fn fmt_size_spec(b: u32) -> Seq<char> {
    if b == 0 {
        "0 B"@
    } else {
        let i = size_unit_index(b);
        let t = tenths_rounded(b as nat, unit_bytes(i));
        decimal(t / 10) + seq!['.'] + seq![digit_char(t % 10)] + seq![' '] + unit_name(i)
    }
}

/// A file size as shown on an item, such as `1.5 MB`.
pub fn fmt_size(bytes: u32) -> (r: String)
    ensures
        r@ == fmt_size_spec(bytes),
{
    if bytes == 0 {
        return "0 B".to_owned();
    }
    let ghost i = size_unit_index(bytes);
    let (d, unit): (u64, &str) = if bytes >= 1073741824 {
        (1073741824, "GB")
    } else if bytes >= 1048576 {
        (1048576, "MB")
    } else if bytes >= 1024 {
        (1024, "KB")
    } else {
        (1, "B")
    };
    assert(d == unit_bytes(i) && unit@ == unit_name(i));
    let x = bytes as u64 * 10;
    let q = x / d;
    let rem = x % d;
    let t = if 2 * rem > d || (2 * rem == d && q % 2 == 1) {
        q + 1
    } else {
        q
    };
    assert(t == tenths_rounded(bytes as nat, unit_bytes(i)));
    let mut s = String::new();
    push_decimal(&mut s, t / 10);
    s.append(".");
    push_digit(&mut s, t % 10);
    s.append(" ");
    s.append(unit);
    proof {
        reveal_strlit(".");
        reveal_strlit(" ");
    }
    assert(s@ =~= fmt_size_spec(bytes));
    s
}


/// The addon types an item can be tagged with, in the order the editor lists them.
pub open spec fn addon_types() -> Seq<Seq<char>> {
    seq![
        "gamemode"@,
        "map"@,
        "tool"@,
        "weapon"@,
        "effects"@,
        "vehicle"@,
        "npc"@,
        "entity"@,
        "model"@,
        "servercontent"@,
    ]
}

/// The other tags an item can carry, in sorted order.
pub open spec fn addon_tags() -> Seq<Seq<char>> {
    seq![
        "build"@,
        "cartoon"@,
        "comic"@,
        "fun"@,
        "movie"@,
        "realism"@,
        "roleplay"@,
        "scenic"@,
        "water"@,
    ]
}

/// The addon types an item can be tagged with.
pub fn addon_type_list() -> (v: Vec<String>)
    ensures
        v.deep_view() == addon_types(),
{
    let mut v: Vec<String> = Vec::new();
    v.push("gamemode".to_owned());
    v.push("map".to_owned());
    v.push("tool".to_owned());
    v.push("weapon".to_owned());
    v.push("effects".to_owned());
    v.push("vehicle".to_owned());
    v.push("npc".to_owned());
    v.push("entity".to_owned());
    v.push("model".to_owned());
    v.push("servercontent".to_owned());
    assert(v.deep_view() =~= addon_types());
    v
}

/// The other tags an item can carry, in sorted order.
pub fn addon_tag_list() -> (v: Vec<String>)
    ensures
        v.deep_view() == addon_tags(),
{
    let mut v: Vec<String> = Vec::new();
    v.push("build".to_owned());
    v.push("cartoon".to_owned());
    v.push("comic".to_owned());
    v.push("fun".to_owned());
    v.push("movie".to_owned());
    v.push("realism".to_owned());
    v.push("roleplay".to_owned());
    v.push("scenic".to_owned());
    v.push("water".to_owned());
    assert(v.deep_view() =~= addon_tags());
    v
}

/// What `str::to_lowercase` gives for `s`.
pub uninterp spec fn lowercase(s: Seq<char>) -> Seq<char>;

/// Whether every character of `s` is ASCII.
pub open spec fn all_ascii(s: Seq<char>) -> bool {
    forall|i: int| 0 <= i < s.len() ==> (#[trigger] s[i] as u32) < 128
}

/// `s` with each ASCII capital letter made small, every other character kept.
pub open spec fn ascii_lower(s: Seq<char>) -> Seq<char> {
    s.map_values(
        |c: char|
            if 65 <= (c as u32) <= 90 {
                ((c as u32) + 32) as char
            } else {
                c
            },
    )
}

/// Calls `str::to_lowercase`. The contract names its result `lowercase` of the text and,
/// for ASCII text, states it: each capital letter becomes small and nothing else changes.
#[verifier::external_body]
fn to_lower(s: &str) -> (r: String)
    ensures
        r@ == lowercase(s@),
        all_ascii(s@) ==> r@ == ascii_lower(s@),
{
    s.to_lowercase()
}

/// A selection of addon tags: each an addon tag, each at most once, in the order of
/// `addon_tags` (which is sorted).
pub struct TagSelection {
    tags: Vec<String>,
}

impl View for TagSelection {
    type V = Seq<Seq<char>>;

    closed spec fn view(&self) -> Seq<Seq<char>> {
        self.tags.deep_view()
    }
}

impl TagSelection {
    #[verifier::type_invariant]
    spec fn wf(self) -> bool {
        is_tag_selection(self.tags.deep_view())
    }

    /// No tag selected.
    pub fn empty() -> (s: TagSelection)
        ensures
            s@ == Seq::<Seq<char>>::empty(),
    {
        let tags: Vec<String> = Vec::new();
        proof {
            lemma_pick_present_none(addon_tags());
            assert(tags.deep_view() =~= Seq::<Seq<char>>::empty());
        }
        TagSelection { tags }
    }

    /// The addon tags that `present` holds, in the order of `addon_tags`.
    pub fn of(present: &Vec<String>) -> (s: TagSelection)
        ensures
            s@ == pick_present(addon_tags(), present.deep_view()),
    {
        proof {
            lemma_picked_tags_are_selection(present.deep_view());
        }
        let cands = addon_tag_list();
        TagSelection { tags: select_present(&cands, present) }
    }

    /// The selected tags, in order; they always form a tag selection.
    pub fn tags(&self) -> (r: &Vec<String>)
        ensures
            r.deep_view() == self@,
            is_tag_selection(self@),
    {
        proof {
            use_type_invariant(self);
        }
        &self.tags
    }
}

/// The editable fields of a workshop item.
pub struct Fields {
    pub title: String,
    pub description: String,
    pub visibility: u8,
    /// The addon type, or empty when the item has none.
    pub addon_type: String,
    /// The selected tags.
    pub selected_tags: TagSelection,
    pub content_path: String,
    pub preview_path: String,
    pub change_note: String,
    pub fix_size: bool,
    pub extra_ignores: String,
}

impl Clone for Fields {
    fn clone(&self) -> (r: Self)
        ensures
            same_fields(*self, r),
    {
        proof {
            use_type_invariant(&self.selected_tags);
        }
        let mut tags: Vec<String> = Vec::new();
        let mut i: usize = 0;
        while i < self.selected_tags.tags.len()
            invariant
                i <= self.selected_tags.tags.len(),
                tags.deep_view() == self.selected_tags@.take(i as int),
            decreases self.selected_tags.tags.len() - i,
        {
            let ghost before = tags.deep_view();
            tags.push(self.selected_tags.tags[i].clone());
            assert(self.selected_tags@.take(i + 1) =~= before.push(
                self.selected_tags.tags@[i as int]@,
            ));
            assert(tags.deep_view() =~= before.push(self.selected_tags.tags@[i as int]@));
            i = i + 1;
        }
        assert(self.selected_tags@.take(i as int) =~= self.selected_tags@);
        Fields {
            title: self.title.clone(),
            description: self.description.clone(),
            visibility: self.visibility,
            addon_type: self.addon_type.clone(),
            selected_tags: TagSelection { tags },
            content_path: self.content_path.clone(),
            preview_path: self.preview_path.clone(),
            change_note: self.change_note.clone(),
            fix_size: self.fix_size,
            extra_ignores: self.extra_ignores.clone(),
        }
    }
}

/// The tags of an item, lowercased.
pub open spec fn lowered_tags(tags: Seq<String>) -> Seq<Seq<char>> {
    tags.map_values(|t: String| lowercase(t@))
}

/// The first of `lowered` that is an addon type, or the empty text.
pub open spec fn first_addon_type(lowered: Seq<Seq<char>>) -> Seq<char>
    decreases lowered.len(),
{
    if lowered.len() == 0 {
        Seq::<char>::empty()
    } else if addon_types().contains(lowered[0]) {
        lowered[0]
    } else {
        first_addon_type(lowered.drop_first())
    }
}

/// Those of `cands` that occur in `present`, in the order of `cands`.
pub open spec fn pick_present(cands: Seq<Seq<char>>, present: Seq<Seq<char>>) -> Seq<Seq<char>>
    decreases cands.len(),
{
    if cands.len() == 0 {
        Seq::<Seq<char>>::empty()
    } else {
        let rest = pick_present(cands.drop_last(), present);
        if present.contains(cands.last()) {
            rest.push(cands.last())
        } else {
            rest
        }
    }
}

/// Whether `s` is a selection of addon tags as the editor keeps one: each of them an addon
/// tag, each at most once, in the order of `addon_tags` (which is sorted). Taking the addon
/// tags that `s` holds gives `s` back exactly then.
pub open spec fn is_tag_selection(s: Seq<Seq<char>>) -> bool {
    &&& pick_present(addon_tags(), s) == s
    &&& s.no_duplicates()
}

/// What `pick_present` keeps: the candidates that are present.
proof fn lemma_pick_present_contains(cands: Seq<Seq<char>>, present: Seq<Seq<char>>, x: Seq<char>)
    ensures
        pick_present(cands, present).contains(x) <==> (cands.contains(x) && present.contains(x)),
    decreases cands.len(),
{
    if cands.len() > 0 {
        let init = cands.drop_last();
        lemma_pick_present_contains(init, present, x);
        let rest = pick_present(init, present);
        assert(cands =~= init.push(cands.last()));
        if present.contains(cands.last()) {
            assert(rest.push(cands.last()).contains(x) <==> (rest.contains(x) || x == cands.last())) by {
                if x == cands.last() {
                    assert(rest.push(cands.last())[rest.len() as int] == x);
                }
                if rest.contains(x) {
                    let k = choose|k: int| 0 <= k < rest.len() && rest[k] == x;
                    assert(rest.push(cands.last())[k] == x);
                }
                if rest.push(cands.last()).contains(x) {
                    let k = choose|k: int| 0 <= k < rest.len() + 1 && rest.push(cands.last())[k] == x;
                    if k < rest.len() {
                        assert(rest[k] == x);
                    }
                }
            }
        }
        if cands.contains(x) {
            let k = choose|k: int| 0 <= k < cands.len() && cands[k] == x;
            if k < init.len() {
                assert(init[k] == x);
            }
        }
        if init.contains(x) {
            let k = choose|k: int| 0 <= k < init.len() && init[k] == x;
            assert(cands[k] == x);
        }
    }
}

/// Nothing present, nothing picked.
proof fn lemma_pick_present_none(cands: Seq<Seq<char>>)
    ensures
        pick_present(cands, Seq::<Seq<char>>::empty()) == Seq::<Seq<char>>::empty(),
    decreases cands.len(),
{
    if cands.len() > 0 {
        lemma_pick_present_none(cands.drop_last());
    }
}

/// Candidates without repeats give a selection without repeats.
proof fn lemma_pick_present_distinct(cands: Seq<Seq<char>>, present: Seq<Seq<char>>)
    requires
        cands.no_duplicates(),
    ensures
        pick_present(cands, present).no_duplicates(),
    decreases cands.len(),
{
    if cands.len() > 0 {
        let init = cands.drop_last();
        let x = cands.last();
        assert(init.no_duplicates()) by {
            assert forall|i: int, j: int| 0 <= i < init.len() && 0 <= j < init.len() && i != j
                implies init[i] != init[j] by {
                assert(init[i] == cands[i] && init[j] == cands[j]);
            }
        }
        lemma_pick_present_distinct(init, present);
        lemma_pick_present_contains(init, present, x);
        let rest = pick_present(init, present);
        if init.contains(x) {
            let k = choose|k: int| 0 <= k < init.len() && init[k] == x;
            assert(cands[k] == cands[cands.len() - 1]);
        }
        if present.contains(x) {
            let r = rest.push(x);
            assert forall|i: int, j: int| 0 <= i < r.len() && 0 <= j < r.len() && i != j
                implies r[i] != r[j] by {
                if i < rest.len() && j < rest.len() {
                    assert(r[i] == rest[i] && r[j] == rest[j]);
                } else if i < rest.len() {
                    assert(r[i] == rest[i]);
                    assert(rest.contains(rest[i]));
                } else {
                    assert(r[j] == rest[j]);
                    assert(rest.contains(rest[j]));
                }
            }
        }
    }
}

/// The addon tags are distinct.
proof fn lemma_addon_tags_distinct()
    ensures
        addon_tags().no_duplicates(),
{
    reveal_strlit("build");
    reveal_strlit("cartoon");
    reveal_strlit("comic");
    reveal_strlit("fun");
    reveal_strlit("movie");
    reveal_strlit("realism");
    reveal_strlit("roleplay");
    reveal_strlit("scenic");
    reveal_strlit("water");
    let t = addon_tags();
    assert forall|i: int, j: int| 0 <= i < t.len() && 0 <= j < t.len() && i != j implies t[i]
        != t[j] by {
        if t[i] == t[j] {
            assert(t[i].len() == t[j].len());
            assert(t[i][0] == t[j][0]);
            assert(t[i][1] == t[j][1]);
        }
    }
}

/// Taking the candidates `d` from a selection made among candidates `cands` that hold all
/// of `d` is taking them from what was selected from.
proof fn lemma_pick_present_twice(d: Seq<Seq<char>>, cands: Seq<Seq<char>>, present: Seq<Seq<char>>)
    requires
        forall|x: Seq<char>| d.contains(x) ==> cands.contains(x),
    ensures
        pick_present(d, pick_present(cands, present)) == pick_present(d, present),
    decreases d.len(),
{
    if d.len() > 0 {
        let init = d.drop_last();
        assert forall|x: Seq<char>| init.contains(x) implies cands.contains(x) by {
            let k = choose|k: int| 0 <= k < init.len() && init[k] == x;
            assert(d[k] == x);
        }
        lemma_pick_present_twice(init, cands, present);
        assert(d[d.len() - 1] == d.last());
        lemma_pick_present_contains(cands, present, d.last());
    }
}

/// What `pick_with` keeps: the candidates that are `tag` when `on`, or else present.
proof fn lemma_pick_with_contains(cands: Seq<Seq<char>>, present: Seq<Seq<char>>, tag: Seq<char>, on: bool, x: Seq<char>)
    ensures
        pick_with(cands, present, tag, on).contains(x) <==> (cands.contains(x) && ((x == tag
            && on) || (x != tag && present.contains(x)))),
    decreases cands.len(),
{
    if cands.len() > 0 {
        let init = cands.drop_last();
        let c = cands.last();
        lemma_pick_with_contains(init, present, tag, on, x);
        let rest = pick_with(init, present, tag, on);
        if (c == tag && on) || (c != tag && present.contains(c)) {
            if x == c {
                assert(rest.push(c)[rest.len() as int] == x);
            }
            if rest.contains(x) {
                let k = choose|k: int| 0 <= k < rest.len() && rest[k] == x;
                assert(rest.push(c)[k] == x);
            }
            if rest.push(c).contains(x) {
                let k = choose|k: int| 0 <= k < rest.len() + 1 && rest.push(c)[k] == x;
                if k < rest.len() {
                    assert(rest[k] == x);
                }
            }
        }
        if cands.contains(x) {
            let k = choose|k: int| 0 <= k < cands.len() && cands[k] == x;
            if k < init.len() {
                assert(init[k] == x);
            }
        }
        if init.contains(x) {
            let k = choose|k: int| 0 <= k < init.len() && init[k] == x;
            assert(cands[k] == x);
        }
    }
}

/// Taking the candidates `d` from what `pick_with` kept among candidates holding all of
/// `d` is `pick_with` over `d`.
proof fn lemma_pick_present_of_pick_with(d: Seq<Seq<char>>, cands: Seq<Seq<char>>, present: Seq<Seq<char>>, tag: Seq<char>, on: bool)
    requires
        forall|x: Seq<char>| d.contains(x) ==> cands.contains(x),
    ensures
        pick_present(d, pick_with(cands, present, tag, on)) == pick_with(d, present, tag, on),
    decreases d.len(),
{
    if d.len() > 0 {
        let init = d.drop_last();
        assert forall|x: Seq<char>| init.contains(x) implies cands.contains(x) by {
            let k = choose|k: int| 0 <= k < init.len() && init[k] == x;
            assert(d[k] == x);
        }
        lemma_pick_present_of_pick_with(init, cands, present, tag, on);
        assert(d[d.len() - 1] == d.last());
        lemma_pick_with_contains(cands, present, tag, on, d.last());
    }
}

/// The addon tags found in any list form a tag selection.
pub proof fn lemma_picked_tags_are_selection(present: Seq<Seq<char>>)
    ensures
        is_tag_selection(pick_present(addon_tags(), present)),
{
    lemma_pick_present_twice(addon_tags(), addon_tags(), present);
    lemma_addon_tags_distinct();
    lemma_pick_present_distinct(addon_tags(), present);
}

/// Ticking or unticking a tag always leaves a tag selection.
pub proof fn lemma_set_tag_keeps_selection(present: Seq<Seq<char>>, tag: Seq<char>, on: bool)
    ensures
        is_tag_selection(pick_with(addon_tags(), present, tag, on)),
{
    let w = pick_with(addon_tags(), present, tag, on);
    lemma_pick_present_of_pick_with(addon_tags(), addon_tags(), present, tag, on);
    lemma_addon_tags_distinct();
    lemma_pick_present_distinct(addon_tags(), w);
}

/// Whether `v` holds the text `t`.
fn contains_text(v: &Vec<String>, t: &String) -> (r: bool)
    ensures
        r == v.deep_view().contains(t@),
{
    let mut i: usize = 0;
    while i < v.len()
        invariant
            i <= v.len(),
            forall|k: int| 0 <= k < i ==> (#[trigger] v@[k])@ != t@,
        decreases v.len() - i,
    {
        if v[i] == *t {
            assert(v.deep_view()[i as int] == t@);
            return true;
        }
        i = i + 1;
    }
    assert(!v.deep_view().contains(t@)) by {
        if v.deep_view().contains(t@) {
            let k = choose|k: int| 0 <= k < v.deep_view().len() && v.deep_view()[k] == t@;
            assert(v@[k]@ == t@);
        }
    }
    false
}

/// Those of `cands` that occur in `present`, in the order of `cands`.
fn select_present(cands: &Vec<String>, present: &Vec<String>) -> (r: Vec<String>)
    ensures
        r.deep_view() == pick_present(cands.deep_view(), present.deep_view()),
{
    let mut r: Vec<String> = Vec::new();
    let mut i: usize = 0;
    assert(cands.deep_view().take(0) =~= Seq::<Seq<char>>::empty());
    assert(r.deep_view() =~= Seq::<Seq<char>>::empty());
    while i < cands.len()
        invariant
            i <= cands.len(),
            r.deep_view() == pick_present(cands.deep_view().take(i as int), present.deep_view()),
        decreases cands.len() - i,
    {
        let ghost before = r.deep_view();
        let ghost pre = cands.deep_view().take(i as int);
        assert(cands.deep_view().take(i + 1).drop_last() =~= pre);
        assert(cands.deep_view().take(i + 1).last() == cands@[i as int]@);
        if contains_text(present, &cands[i]) {
            r.push(cands[i].clone());
            assert(r.deep_view() =~= before.push(cands@[i as int]@));
        }
        i = i + 1;
    }
    assert(cands.deep_view().take(i as int) =~= cands.deep_view());
    r
}

/// The first of `lowered` that is one of `types` (the addon types), or the empty text.
fn pick_first_type(lowered: &Vec<String>, types: &Vec<String>) -> (r: String)
    requires
        types.deep_view() == addon_types(),
    ensures
        r@ == first_addon_type(lowered.deep_view()),
{
    let mut j: usize = 0;
    assert(lowered.deep_view().skip(0) =~= lowered.deep_view());
    while j < lowered.len()
        invariant
            j <= lowered.len(),
            types.deep_view() == addon_types(),
            first_addon_type(lowered.deep_view()) == first_addon_type(
                lowered.deep_view().skip(j as int),
            ),
        decreases lowered.len() - j,
    {
        let ghost rest = lowered.deep_view().skip(j as int);
        assert(rest[0] == lowered@[j as int]@);
        assert(rest.drop_first() =~= lowered.deep_view().skip(j + 1));
        if contains_text(types, &lowered[j]) {
            return lowered[j].clone();
        }
        j = j + 1;
    }
    assert(lowered.deep_view().skip(j as int) =~= Seq::<Seq<char>>::empty());
    String::new()
}

/// The fields the editor starts from for `item`: its title, description and visibility,
/// its first tag (lowercased) that is an addon type, its tags (lowercased) that are among
/// `addon_tags`, the guessed content folder, and nothing else filled in.
pub open spec fn fields_from_item_spec(item: WorkshopItem, content_guess: Option<String>, f: Fields) -> bool {
    &&& f.title@ == item.title@
    &&& f.description@ == item.description@
    &&& f.visibility == item.visibility
    &&& f.addon_type@ == first_addon_type(lowered_tags(item.tags@))
    &&& f.selected_tags@ == pick_present(addon_tags(), lowered_tags(item.tags@))
    &&& f.content_path@ == (match content_guess {
        Some(p) => p@,
        None => Seq::<char>::empty(),
    })
    &&& f.preview_path@ == Seq::<char>::empty()
    &&& f.change_note@ == Seq::<char>::empty()
    &&& !f.fix_size
    &&& f.extra_ignores@ == Seq::<char>::empty()
}

/// The fields the editor starts from for `item`.
pub fn fields_from_item(item: &WorkshopItem, content_guess: Option<String>) -> (f: Fields)
    ensures
        fields_from_item_spec(*item, content_guess, f),
        is_tag_selection(f.selected_tags@),
{
    proof {
        lemma_picked_tags_are_selection(lowered_tags(item.tags@));
    }
    let mut lowered: Vec<String> = Vec::new();
    let mut i: usize = 0;
    while i < item.tags.len()
        invariant
            i <= item.tags.len(),
            lowered.deep_view() == lowered_tags(item.tags@.take(i as int)),
        decreases item.tags.len() - i,
    {
        let ghost before = lowered.deep_view();
        lowered.push(to_lower(item.tags[i].as_str()));
        assert(lowered_tags(item.tags@.take(i + 1)) =~= before.push(lowercase(item.tags@[i as int]@)));
        assert(lowered.deep_view() =~= before.push(lowercase(item.tags@[i as int]@)));
        i = i + 1;
    }
    assert(item.tags@.take(i as int) =~= item.tags@);
    let types = addon_type_list();
    let addon_type = pick_first_type(&lowered, &types);
    let tags = addon_tag_list();
    let selected_tags = select_present(&tags, &lowered);
    Fields {
        title: item.title.clone(),
        description: item.description.clone(),
        visibility: item.visibility,
        addon_type,
        selected_tags: TagSelection { tags: selected_tags },
        content_path: match content_guess {
            Some(p) => p,
            None => String::new(),
        },
        preview_path: String::new(),
        change_note: String::new(),
        fix_size: false,
        extra_ignores: String::new(),
    }
}


/// Whether two sets of fields hold the same values.
pub open spec fn same_fields(a: Fields, b: Fields) -> bool {
    &&& a.title@ == b.title@
    &&& a.description@ == b.description@
    &&& a.visibility == b.visibility
    &&& a.addon_type@ == b.addon_type@
    &&& a.selected_tags@ == b.selected_tags@
    &&& a.content_path@ == b.content_path@
    &&& a.preview_path@ == b.preview_path@
    &&& a.change_note@ == b.change_note@
    &&& a.fix_size == b.fix_size
    &&& a.extra_ignores@ == b.extra_ignores@
}

/// Whether two lists of texts are the same.
fn same_texts(a: &Vec<String>, b: &Vec<String>) -> (r: bool)
    ensures
        r == (a.deep_view() == b.deep_view()),
{
    if a.len() != b.len() {
        assert(a.deep_view().len() != b.deep_view().len());
        return false;
    }
    let mut i: usize = 0;
    while i < a.len()
        invariant
            i <= a.len(),
            a.len() == b.len(),
            forall|k: int| 0 <= k < i ==> (#[trigger] a@[k])@ == b@[k]@,
        decreases a.len() - i,
    {
        if a[i] != b[i] {
            assert(a.deep_view()[i as int] != b.deep_view()[i as int]);
            return false;
        }
        i = i + 1;
    }
    assert(a.deep_view() =~= b.deep_view());
    true
}

/// Whether the fields being edited differ from the ones the item has.
pub fn is_dirty(cur: &Fields, saved: &Fields) -> (r: bool)
    ensures
        r == !same_fields(*cur, *saved),
{
    !(cur.title == saved.title && cur.description == saved.description && cur.visibility
        == saved.visibility && cur.addon_type == saved.addon_type && same_texts(
        &cur.selected_tags.tags,
        &saved.selected_tags.tags,
    ) && cur.content_path == saved.content_path && cur.preview_path == saved.preview_path
        && cur.change_note == saved.change_note && cur.fix_size == saved.fix_size
        && cur.extra_ignores == saved.extra_ignores)
}

/// The tags an update sends: the addon type, when there is one, then the selected tags.
pub open spec fn request_tags_spec(f: Fields) -> Seq<Seq<char>> {
    (if f.addon_type@.len() > 0 {
        seq![f.addon_type@]
    } else {
        Seq::<Seq<char>>::empty()
    }) + f.selected_tags@
}

/// The tags an update sends.
pub fn request_tags(f: &Fields) -> (r: Vec<String>)
    ensures
        r.deep_view() == request_tags_spec(*f),
{
    let mut r: Vec<String> = Vec::new();
    if !f.addon_type.as_str().is_empty() {
        r.push(f.addon_type.clone());
    }
    let ghost head = r.deep_view();
    assert(head =~= (if f.addon_type@.len() > 0 {
        seq![f.addon_type@]
    } else {
        Seq::<Seq<char>>::empty()
    }));
    let mut i: usize = 0;
    while i < f.selected_tags.tags.len()
        invariant
            i <= f.selected_tags.tags.len(),
            r.deep_view() == head + f.selected_tags@.take(i as int),
        decreases f.selected_tags.tags.len() - i,
    {
        let ghost before = r.deep_view();
        r.push(f.selected_tags.tags[i].clone());
        assert(f.selected_tags@.take(i + 1) =~= f.selected_tags@.take(
            i as int,
        ).push(f.selected_tags.tags@[i as int]@));
        assert(r.deep_view() =~= before.push(f.selected_tags.tags@[i as int]@));
        i = i + 1;
    }
    assert(f.selected_tags@.take(i as int) =~= f.selected_tags@);
    r
}

/// Those of `cands` that are `tag` when `on`, or else occur in `present`, in the order of
/// `cands`.
pub open spec fn pick_with(cands: Seq<Seq<char>>, present: Seq<Seq<char>>, tag: Seq<char>, on: bool) -> Seq<Seq<char>>
    decreases cands.len(),
{
    if cands.len() == 0 {
        Seq::<Seq<char>>::empty()
    } else {
        let rest = pick_with(cands.drop_last(), present, tag, on);
        let c = cands.last();
        if (c == tag && on) || (c != tag && present.contains(c)) {
            rest.push(c)
        } else {
            rest
        }
    }
}

/// Ticks (`on`) or unticks tag `tag`; the selection stays in the order of `addon_tags`.
/// Nothing changes while an update uploads.
pub fn set_tag(f: &mut Fields, tag: &String, on: bool, uploading: bool)
    ensures
        !uploading ==> final(f).selected_tags@ == pick_with(
            addon_tags(),
            old(f).selected_tags@,
            tag@,
            on,
        ),
        uploading ==> final(f).selected_tags == old(f).selected_tags,
        is_tag_selection(final(f).selected_tags@),
        final(f).title == old(f).title,
        final(f).description == old(f).description,
        final(f).visibility == old(f).visibility,
        final(f).addon_type == old(f).addon_type,
        final(f).content_path == old(f).content_path,
        final(f).preview_path == old(f).preview_path,
        final(f).change_note == old(f).change_note,
        final(f).fix_size == old(f).fix_size,
        final(f).extra_ignores == old(f).extra_ignores,
{
    proof {
        lemma_set_tag_keeps_selection(old(f).selected_tags@, tag@, on);
        use_type_invariant(&f.selected_tags);
    }
    if uploading {
        return;
    }
    let cands = addon_tag_list();
    let mut r: Vec<String> = Vec::new();
    let mut i: usize = 0;
    assert(cands.deep_view().take(0) =~= Seq::<Seq<char>>::empty());
    assert(r.deep_view() =~= Seq::<Seq<char>>::empty());
    while i < cands.len()
        invariant
            i <= cands.len(),
            cands.deep_view() == addon_tags(),
            f.selected_tags == old(f).selected_tags,
            r.deep_view() == pick_with(
                cands.deep_view().take(i as int),
                f.selected_tags@,
                tag@,
                on,
            ),
        decreases cands.len() - i,
    {
        let ghost before = r.deep_view();
        assert(cands.deep_view().take(i + 1).drop_last() =~= cands.deep_view().take(i as int));
        assert(cands.deep_view().take(i + 1).last() == cands@[i as int]@);
        let keep = if cands[i] == *tag {
            on
        } else {
            contains_text(&f.selected_tags.tags, &cands[i])
        };
        if keep {
            r.push(cands[i].clone());
            assert(r.deep_view() =~= before.push(cands@[i as int]@));
        }
        i = i + 1;
    }
    assert(cands.deep_view().take(i as int) =~= cands.deep_view());
    f.selected_tags = TagSelection { tags: r };
}

/// A path field as an update reads it: nothing when the field is blank, else the field
/// without its leading and trailing white space.
pub open spec fn path_field_spec(s: Seq<char>) -> Option<Seq<char>> {
    if trim(s).len() == 0 {
        None
    } else {
        Some(trim(s))
    }
}

/// A path field as an update reads it.
pub fn path_field(s: &str) -> (r: Option<String>)
    ensures
        (match r {
            Some(p) => Some(p@),
            None => None,
        }) == path_field_spec(s@),
{
    let v = chars_of(s);
    let (a, b) = trim_bounds(&v, 0, v.len());
    assert(v@.subrange(0, v@.len() as int) =~= s@);
    if a == b {
        None
    } else {
        Some(s.substring_char(a, b).to_owned())
    }
}

/// The message an update gives for a preview image of `w` by `h` pixels that is not to be
/// resized.
pub open spec fn preview_size_message(w: u32, h: u32) -> Seq<char> {
    "Preview must be 512x512 (this is "@ + decimal(w as nat) + "x"@ + decimal(h as nat)
        + "). Tick \"Resize image to fit 512x512\" to fix it automatically."@
}

/// Checks the size of a preview image that is sent as it is: it must be 512 by 512 pixels.
pub fn check_preview_size(w: u32, h: u32) -> (r: Result<(), String>)
    ensures
        r is Ok <==> (w == 512 && h == 512),
        r matches Err(m) ==> m@ == preview_size_message(w, h),
{
    if w == 512 && h == 512 {
        return Ok(());
    }
    let mut m = String::new();
    m.append("Preview must be 512x512 (this is ");
    push_decimal(&mut m, w as u64);
    m.append("x");
    push_decimal(&mut m, h as u64);
    m.append("). Tick \"Resize image to fit 512x512\" to fix it automatically.");
    assert(m@ =~= preview_size_message(w, h));
    Err(m)
}

/// The count shown over the item list, such as `1 item` or `12 items`.
pub open spec fn items_label_spec(total: u32) -> Seq<char> {
    decimal(total as nat) + (if total == 1 {
        " item"@
    } else {
        " items"@
    })
}

/// The count shown over the item list.
pub fn items_label(total: u32) -> (r: String)
    ensures
        r@ == items_label_spec(total),
{
    let mut r = String::new();
    push_decimal(&mut r, total as u64);
    if total == 1 {
        r.append(" item");
    } else {
        r.append(" items");
    }
    r
}

/// The position shown under the item list, such as `Page 2 of 5`.
pub open spec fn page_label_spec(page: u32, total_pages: u32) -> Seq<char> {
    "Page "@ + decimal(page as nat) + " of "@ + decimal(total_pages as nat)
}

/// The position shown under the item list.
pub fn page_label(page: u32, total_pages: u32) -> (r: String)
    ensures
        r@ == page_label_spec(page, total_pages),
{
    let mut r = String::new();
    r.append("Page ");
    push_decimal(&mut r, page as u64);
    r.append(" of ");
    push_decimal(&mut r, total_pages as u64);
    r
}

/// Whether a loaded page of results is the empty first page, shown as "no items found".
pub fn is_empty_listing(r: &WorkshopQueryResult) -> (b: bool)
    ensures
        b == (r.items.len() == 0 && r.page == 1),
{
    r.items.len() == 0 && r.page == 1
}

/// The page of the item list being shown; pages count from 1.
pub struct Pager {
    page: u32,
}

impl Pager {
    #[verifier::type_invariant]
    spec fn wf(self) -> bool {
        self.page >= 1
    }

    /// The page being shown.
    pub closed spec fn page_spec(self) -> u32 {
        self.page
    }

    /// The first page.
    pub fn new() -> (p: Pager)
        ensures
            p.page_spec() == 1,
    {
        Pager { page: 1 }
    }

    /// The page being shown.
    pub fn page(&self) -> (r: u32)
        ensures
            r == self.page_spec(),
            r >= 1,
    {
        proof {
            use_type_invariant(self);
        }
        self.page
    }

    /// Whether there is a page before this one to go to (not while a page loads).
    pub fn can_prev(&self, loading: bool) -> (b: bool)
        ensures
            b == (self.page_spec() > 1 && !loading),
    {
        self.page > 1 && !loading
    }

    /// Whether there is a page after this one, of `total_pages`, to go to (not while a
    /// page loads).
    pub fn can_next(&self, total_pages: u32, loading: bool) -> (b: bool)
        ensures
            b == (self.page_spec() < total_pages && !loading),
    {
        self.page < total_pages && !loading
    }

    /// Goes one page back when that is possible; says whether it moved, and so whether
    /// the page is to be loaded again.
    pub fn prev(&mut self, loading: bool) -> (moved: bool)
        ensures
            moved == (old(self).page_spec() > 1 && !loading),
            final(self).page_spec() == (if moved {
                (old(self).page_spec() - 1) as u32
            } else {
                old(self).page_spec()
            }),
            final(self).page_spec() >= 1,
    {
        proof {
            use_type_invariant(&*self);
        }
        if self.page > 1 && !loading {
            self.page = self.page - 1;
            true
        } else {
            false
        }
    }

    /// Goes one page forward, of `total_pages`, when that is possible; says whether it
    /// moved. A move never passes the last page.
    pub fn next(&mut self, total_pages: u32, loading: bool) -> (moved: bool)
        ensures
            moved == (old(self).page_spec() < total_pages && !loading),
            final(self).page_spec() == (if moved {
                (old(self).page_spec() + 1) as u32
            } else {
                old(self).page_spec()
            }),
            moved ==> final(self).page_spec() <= total_pages,
            final(self).page_spec() >= 1,
    {
        proof {
            use_type_invariant(&*self);
        }
        if self.page < total_pages && !loading {
            self.page = self.page + 1;
            true
        } else {
            false
        }
    }
}

/// The fields after an update of `before` went through: the content and preview paths and
/// the change note are cleared, the rest stays.
pub open spec fn submitted_fields(before: Fields, after: Fields) -> bool {
    &&& after.title@ == before.title@
    &&& after.description@ == before.description@
    &&& after.visibility == before.visibility
    &&& after.addon_type@ == before.addon_type@
    &&& after.selected_tags@ == before.selected_tags@
    &&& after.content_path@ == Seq::<char>::empty()
    &&& after.preview_path@ == Seq::<char>::empty()
    &&& after.change_note@ == Seq::<char>::empty()
    &&& after.fix_size == before.fix_size
    &&& after.extra_ignores@ == before.extra_ignores@
}

/// Once an update went through: clears the one-shot fields of `cur` (content path, preview
/// path, change note) and takes the result as the fields the item has, so that nothing is
/// left unsaved.
pub fn mark_submitted(cur: &mut Fields, saved: &mut Fields)
    ensures
        submitted_fields(*old(cur), *final(cur)),
        same_fields(*final(cur), *final(saved)),
{
    cur.content_path = String::new();
    cur.preview_path = String::new();
    cur.change_note = String::new();
    *saved = cur.clone();
}

/// What the preview shown in the editor is built from: the preview path, trimmed, and
/// whether it is resized; nothing when the path is blank.
pub open spec fn preview_source_spec(f: Fields) -> Option<(Seq<char>, bool)> {
    match path_field_spec(f.preview_path@) {
        Some(p) => Some((p, f.fix_size)),
        None => None,
    }
}

/// What the preview shown in the editor is built from.
pub fn preview_source(f: &Fields) -> (r: Option<(String, bool)>)
    ensures
        (match r {
            Some((p, fix)) => Some((p@, fix)),
            None => None,
        }) == preview_source_spec(*f),
{
    match path_field(f.preview_path.as_str()) {
        Some(p) => Some((p, f.fix_size)),
        None => None,
    }
}

/// The warning shown under a preview of `w` by `h` pixels that is sent as it is.
pub open spec fn preview_note_message(w: u32, h: u32) -> Seq<char> {
    "This image is "@ + decimal(w as nat) + "x"@ + decimal(h as nat)
        + ", not 512x512. Tick the box above to resize it."@
}

/// The warning shown under a preview image of `w` by `h` pixels: none when it is resized
/// or already 512 by 512.
pub fn preview_note(fix_size: bool, w: u32, h: u32) -> (r: Option<String>)
    ensures
        r is None <==> (fix_size || (w == 512 && h == 512)),
        r matches Some(m) ==> m@ == preview_note_message(w, h),
{
    if fix_size || (w == 512 && h == 512) {
        return None;
    }
    let mut m = String::new();
    m.append("This image is ");
    push_decimal(&mut m, w as u64);
    m.append("x");
    push_decimal(&mut m, h as u64);
    m.append(", not 512x512. Tick the box above to resize it.");
    assert(m@ =~= preview_note_message(w, h));
    Some(m)
}

/// What the user does about leaving the editor: the back button, or one of the two
/// answers to the question about unsaved changes.
pub enum LeaveEvent {
    Back,
    Discard,
    KeepEditing,
}

/// Handles a step of leaving the editor; `asking` is whether the question about unsaved
/// changes is shown. Going back with unsaved changes asks first; without them, or on
/// "discard", the editor closes; "keep editing" drops the question. Going back does nothing
/// while an update uploads. Returns whether the editor closes.
pub fn on_leave_event(asking: &mut bool, event: LeaveEvent, dirty: bool, uploading: bool) -> (close:
    bool)
    ensures
        match event {
            LeaveEvent::Back => if uploading {
                !close && *final(asking) == *old(asking)
            } else if dirty {
                !close && *final(asking)
            } else {
                close && !*final(asking)
            },
            LeaveEvent::Discard => close && !*final(asking),
            LeaveEvent::KeepEditing => !close && !*final(asking),
        },
{
    match event {
        LeaveEvent::Back => {
            if uploading {
                false
            } else if dirty {
                *asking = true;
                false
            } else {
                *asking = false;
                true
            }
        },
        LeaveEvent::Discard => {
            *asking = false;
            true
        },
        LeaveEvent::KeepEditing => {
            *asking = false;
            false
        },
    }
}

/// The fields an update sends to Steam, once checked.
pub struct UpdateFields {
    pub id: u64,
    pub title: String,
    pub description: String,
    pub visibility: u8,
    /// The addon type, when there is one, then the selected tags.
    pub tags: Vec<String>,
    /// The packed content to upload, if any.
    pub content: Option<String>,
    /// The preview image to upload, if any.
    pub preview: Option<String>,
    pub change_note: String,
}

/// The message of an update whose content path is not a folder.
pub open spec fn content_folder_message() -> Seq<char> {
    "Content path must be an existing folder."@
}

/// The message of an update whose preview path is not a file.
pub open spec fn preview_file_message() -> Seq<char> {
    "Preview path must be an existing file."@
}

/// What the content step of an update of `cur` gives, as `r`: nothing to upload for a
/// blank content path; the folder message when the path is not a folder
/// (`content_is_dir`); otherwise what `pack` gives for the trimmed path, the packed
/// content or its error.
pub open spec fn content_step<FK: FnOnce(String) -> Result<String, String>>(
    cur: Fields,
    content_is_dir: bool,
    pack: FK,
    r: Result<Option<String>, String>,
) -> bool {
    match path_field_spec(cur.content_path@) {
        None => r == Ok::<Option<String>, String>(None),
        Some(folder) => if !content_is_dir {
            r matches Err(m) && m@ == content_folder_message()
        } else {
            exists|p: String, packed: Result<String, String>|
                #![trigger call_ensures(pack, (p,), packed)]
                p@ == folder && call_ensures(pack, (p,), packed) && r == match packed {
                    Ok(c) => Ok::<Option<String>, String>(Some(c)),
                    Err(e) => Err::<Option<String>, String>(e),
                }
        },
    }
}

/// What the preview step of an update of `cur` gives, as `r`: nothing to upload for a
/// blank preview path; the file message when the path is not a file (`preview_is_file`);
/// for a preview to resize, what `resize` gives for the trimmed path; otherwise the trimmed
/// path itself when `dims` reads the image as 512 by 512, or else the error about its
/// size, or about reading it.
pub open spec fn preview_step<
    FR: FnOnce(String) -> Result<String, String>,
    FD: FnOnce(String) -> Result<(u32, u32), String>,
>(cur: Fields, preview_is_file: bool, resize: FR, dims: FD, r: Result<Option<String>, String>) -> bool {
    match path_field_spec(cur.preview_path@) {
        None => r == Ok::<Option<String>, String>(None),
        Some(path) => if !preview_is_file {
            r matches Err(m) && m@ == preview_file_message()
        } else if cur.fix_size {
            exists|p: String, resized: Result<String, String>|
                #![trigger call_ensures(resize, (p,), resized)]
                p@ == path && call_ensures(resize, (p,), resized) && r == match resized {
                    Ok(o) => Ok::<Option<String>, String>(Some(o)),
                    Err(e) => Err::<Option<String>, String>(e),
                }
        } else {
            exists|p: String, size: Result<(u32, u32), String>|
                #![trigger call_ensures(dims, (p,), size)]
                p@ == path && call_ensures(dims, (p,), size) && match size {
                    Err(e) => r matches Err(m) && m@ == "Open image failed: "@ + e@,
                    Ok((w, h)) => if w == 512 && h == 512 {
                        r matches Ok(Some(q)) && q@ == path
                    } else {
                        r matches Err(m) && m@ == preview_size_message(w, h)
                    },
                }
        },
    }
}

/// Whether `u` is the update of item `id` with the fields `cur`, the content `content`
/// and the preview `preview`.
pub open spec fn update_fields_of(
    u: UpdateFields,
    id: u64,
    cur: Fields,
    content: Option<String>,
    preview: Option<String>,
) -> bool {
    &&& u.id == id
    &&& u.title@ == cur.title@
    &&& u.description@ == cur.description@
    &&& u.visibility == cur.visibility
    &&& u.tags.deep_view() == request_tags_spec(cur)
    &&& u.content == content
    &&& u.preview == preview
    &&& u.change_note@ == cur.change_note@
}

/// Builds the update of item `id` with the fields `cur`, in order: the content step (the
/// trimmed content path must be a folder, `content_is_dir`, which `pack` packs), then the
/// preview step (the trimmed preview path must be a file, `preview_is_file`; it is resized
/// with `resize` when asked, else `dims` reads its size, which must be 512 by 512). The
/// first error ends it.
pub fn update_request<
    FK: FnOnce(String) -> Result<String, String>,
    FR: FnOnce(String) -> Result<String, String>,
    FD: FnOnce(String) -> Result<(u32, u32), String>,
>(
    id: u64,
    cur: &Fields,
    content_is_dir: bool,
    pack: FK,
    preview_is_file: bool,
    resize: FR,
    dims: FD,
) -> (r: Result<UpdateFields, String>)
    requires
        forall|p: String| pack.requires((p,)),
        forall|p: String| resize.requires((p,)),
        forall|p: String| dims.requires((p,)),
    ensures
        exists|c: Result<Option<String>, String>|
            #![trigger content_step(*cur, content_is_dir, pack, c)]
            content_step(*cur, content_is_dir, pack, c) && match c {
                Err(m) => r == Err::<UpdateFields, String>(m),
                Ok(content) => exists|v: Result<Option<String>, String>|
                    #![trigger preview_step(*cur, preview_is_file, resize, dims, v)]
                    preview_step(*cur, preview_is_file, resize, dims, v) && match v {
                        Err(m) => r == Err::<UpdateFields, String>(m),
                        Ok(preview) => r matches Ok(u) && update_fields_of(
                            u,
                            id,
                            *cur,
                            content,
                            preview,
                        ),
                    },
            },
{
    let content: Option<String> = match path_field(cur.content_path.as_str()) {
        None => None,
        Some(folder) => {
            if !content_is_dir {
                let m = "Content path must be an existing folder.".to_owned();
                assert(content_step(*cur, content_is_dir, pack, Err::<Option<String>, String>(m)));
                return Err(m);
            }
            let packed = pack(folder);
            match packed {
                Ok(c) => {
                    assert(content_step(*cur, content_is_dir, pack, Ok::<Option<String>, String>(Some(c))));
                    Some(c)
                },
                Err(e) => {
                    assert(content_step(*cur, content_is_dir, pack, Err::<Option<String>, String>(e)));
                    return Err(e);
                },
            }
        },
    };
    assert(content_step(*cur, content_is_dir, pack, Ok::<Option<String>, String>(content)));
    let preview: Option<String> = match path_field(cur.preview_path.as_str()) {
        None => None,
        Some(path) => {
            if !preview_is_file {
                let m = "Preview path must be an existing file.".to_owned();
                assert(preview_step(*cur, preview_is_file, resize, dims, Err::<Option<String>, String>(m)));
                return Err(m);
            }
            if cur.fix_size {
                let resized = resize(path);
                match resized {
                    Ok(o) => {
                        assert(preview_step(*cur, preview_is_file, resize, dims, Ok::<Option<String>, String>(Some(o))));
                        Some(o)
                    },
                    Err(e) => {
                        assert(preview_step(*cur, preview_is_file, resize, dims, Err::<Option<String>, String>(e)));
                        return Err(e);
                    },
                }
            } else {
                let size = dims(path.clone());
                match size {
                    Err(e) => {
                        let mut m = "Open image failed: ".to_owned();
                        m.append(e.as_str());
                        assert(preview_step(*cur, preview_is_file, resize, dims, Err::<Option<String>, String>(m)));
                        return Err(m);
                    },
                    Ok((w, h)) => match check_preview_size(w, h) {
                        Err(m) => {
                            assert(preview_step(*cur, preview_is_file, resize, dims, Err::<Option<String>, String>(m)));
                            return Err(m);
                        },
                        Ok(()) => {
                            assert(preview_step(*cur, preview_is_file, resize, dims, Ok::<Option<String>, String>(Some(path))));
                            Some(path)
                        },
                    },
                }
            }
        },
    };
    assert(preview_step(*cur, preview_is_file, resize, dims, Ok::<Option<String>, String>(preview)));
    let u = UpdateFields {
        id,
        title: cur.title.clone(),
        description: cur.description.clone(),
        visibility: cur.visibility,
        tags: request_tags(cur),
        content,
        preview,
        change_note: cur.change_note.clone(),
    };
    Ok(u)
}

/// Picks the visibility `v` of the item; nothing changes while an update uploads.
pub fn choose_visibility(f: &mut Fields, v: Visibility, uploading: bool)
    ensures
        *final(f) == (if uploading {
            *old(f)
        } else {
            Fields { visibility: visibility_code_spec(v), ..*old(f) }
        }),
{
    if !uploading {
        f.visibility = visibility_code(v);
    }
}

/// Picks the addon type `t`, which must be one of `addon_types`; says whether it was taken.
/// Nothing changes while an update uploads.
pub fn choose_addon_type(f: &mut Fields, t: &String, uploading: bool) -> (taken: bool)
    ensures
        taken == (!uploading && addon_types().contains(t@)),
        *final(f) == (if taken {
            Fields { addon_type: *t, ..*old(f) }
        } else {
            *old(f)
        }),
{
    if uploading {
        return false;
    }
    let types = addon_type_list();
    if contains_text(&types, t) {
        f.addon_type = t.clone();
        true
    } else {
        false
    }
}

} // verus!
