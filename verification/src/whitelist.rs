//! The addon whitelist: which relative paths an addon may contain, following the
//! wildcard list that the game's packer ships, with `!` marking a pattern that forbids.
use vstd::prelude::*;
use vstd::string::*;
use crate::text::{
    chars_of, find_char, find_sub, index_of, last_index_of, lemma_index_of_at,
    lemma_index_of_bounds, rfind_char, sub_index, trim, trim_bounds,
};

verus! {

/// Whether the wildcard pattern `p` matches all of `s`: `*` stands for any run of
/// characters, `?` for exactly one, every other character for itself.
pub open spec fn glob_matches(p: Seq<char>, s: Seq<char>) -> bool
    decreases p.len() + s.len(),
{
    if p.len() == 0 {
        s.len() == 0
    } else if p[0] == '*' {
        glob_matches(p.drop_first(), s) || (s.len() > 0 && glob_matches(p, s.drop_first()))
    } else {
        s.len() > 0 && (p[0] == '?' || p[0] == s[0]) && glob_matches(
            p.drop_first(),
            s.drop_first(),
        )
    }
}

/// Calls `wildmatch::WildMatch::new(pattern).matches(text)`. The contract claims what the
/// crate documents: the whole of `text` must match, `*` matches any run of characters,
/// `?` exactly one, and every other character only itself.
#[verifier::external_body]
fn wild_matches(pattern: &str, text: &str) -> (r: bool)
    ensures
        r == glob_matches(pattern@, text@),
{
    wildmatch::WildMatch::new(pattern).matches(text)
}

/// One compiled line of the whitelist.
struct Rule {
    pattern: String,
    negate: bool,
}

impl View for Rule {
    type V = (Seq<char>, bool);

    closed spec fn view(&self) -> (Seq<char>, bool) {
        (self.pattern@, self.negate)
    }
}

/// The rule written as `p`: a leading `!` makes it a forbidding rule.
pub open spec fn compile_one(p: Seq<char>) -> (Seq<char>, bool) {
    if p.len() > 0 && p[0] == '!' {
        (p.drop_first(), true)
    } else {
        (p, false)
    }
}

/// The rules written as `patterns`, in order.
pub open spec fn compiled(patterns: Seq<Seq<char>>) -> Seq<(Seq<char>, bool)> {
    patterns.map_values(|p: Seq<char>| compile_one(p))
}

/// Whether `path` is allowed after reading `rules` in order: a matching allowing rule
/// makes it allowed, a matching forbidding rule makes it forbidden again.
pub open spec fn allowed_by(rules: Seq<(Seq<char>, bool)>, path: Seq<char>) -> bool
    decreases rules.len(),
{
    if rules.len() == 0 {
        false
    } else {
        let prev = allowed_by(rules.drop_last(), path);
        let r = rules.last();
        if r.1 {
            prev && !glob_matches(r.0, path)
        } else {
            prev || glob_matches(r.0, path)
        }
    }
}

/// The last rule of `rules` that matches `path` is an allowing rule.
pub open spec fn last_match_allows(rules: Seq<(Seq<char>, bool)>, path: Seq<char>) -> bool {
    exists|i: int|
        #![trigger rules[i]]
        0 <= i < rules.len() && glob_matches(rules[i].0, path) && !rules[i].1 && forall|j: int|
            #![trigger rules[j]]
            i < j < rules.len() && glob_matches(rules[j].0, path) ==> !rules[j].1
}

/// A path is allowed exactly when the last rule that matches it is an allowing rule.
pub proof fn lemma_allowed_iff_last_match_allows(rules: Seq<(Seq<char>, bool)>, path: Seq<char>)
    ensures
        allowed_by(rules, path) == last_match_allows(rules, path),
    decreases rules.len(),
{
    if rules.len() > 0 {
        let init = rules.drop_last();
        let n = rules.len() - 1;
        lemma_allowed_iff_last_match_allows(init, path);
        let r = rules.last();
        if last_match_allows(init, path) {
            let i = choose|i: int|
                #![trigger init[i]]
                0 <= i < init.len() && glob_matches(init[i].0, path) && !init[i].1 && forall|
                    j: int,
                |
                    #![trigger init[j]]
                    i < j < init.len() && glob_matches(init[j].0, path) ==> !init[j].1;
            assert(rules[i] == init[i]);
            if !(r.1 && glob_matches(r.0, path)) {
                assert forall|j: int|
                    #![trigger rules[j]]
                    i < j < rules.len() && glob_matches(rules[j].0, path) implies !rules[j].1 by {
                    if j < n {
                        assert(rules[j] == init[j]);
                    }
                }
            }
        } else {
            if last_match_allows(rules, path) {
                let i = choose|i: int|
                    #![trigger rules[i]]
                    0 <= i < rules.len() && glob_matches(rules[i].0, path) && !rules[i].1
                        && forall|j: int|
                        #![trigger rules[j]]
                        i < j < rules.len() && glob_matches(rules[j].0, path) ==> !rules[j].1;
                if i < n {
                    assert(init[i] == rules[i]);
                    assert forall|j: int|
                        #![trigger init[j]]
                        i < j < init.len() && glob_matches(init[j].0, path) implies !init[j].1 by {
                        assert(init[j] == rules[j]);
                    }
                }
            }
            if !r.1 && glob_matches(r.0, path) {
                assert(rules[n] == r);
            }
        }
    }
}

/// The whitelist in force: its patterns as written and the rules compiled from them.
pub struct Whitelist {
    rules: Vec<Rule>,
    latest: Vec<String>,
}

impl Whitelist {
    #[verifier::type_invariant]
    spec fn wf(self) -> bool {
        &&& self.rules.len() == self.latest.len()
        &&& self.latest.len() > 0
        &&& forall|i: int|
            0 <= i < self.rules.len() ==> #[trigger] self.rules@[i]@ == compile_one(
                self.latest@[i]@,
            )
    }

    /// The patterns of the whitelist, in order.
    pub closed spec fn patterns(self) -> Seq<Seq<char>> {
        self.latest.deep_view()
    }

    /// A whitelist built from the patterns that ship with the tool.
    pub fn new() -> (w: Whitelist)
        ensures
            w.patterns() == fallback_spec(),
    {
        let latest = fallback_patterns();
        assert(latest@.len() > 0) by {
            assert(latest.deep_view().len() == latest@.len());
        }
        let rules = compile(&latest);
        Whitelist { rules, latest }
    }
}

/// Compiles each pattern into a rule, in order.
fn compile(patterns: &Vec<String>) -> (rules: Vec<Rule>)
    ensures
        rules.len() == patterns.len(),
        forall|i: int| 0 <= i < rules.len() ==> #[trigger] rules@[i]@ == compile_one(patterns@[i]@),
{
    let mut rules: Vec<Rule> = Vec::new();
    let mut i: usize = 0;
    while i < patterns.len()
        invariant
            i <= patterns.len(),
            rules.len() == i,
            forall|k: int| 0 <= k < i ==> #[trigger] rules@[k]@ == compile_one(patterns@[k]@),
        decreases patterns.len() - i,
    {
        let p = patterns[i].as_str();
        let n = p.unicode_len();
        let rule = if n > 0 && p.get_char(0) == '!' {
            let rest = p.substring_char(1, n).to_owned();
            assert(rest@ =~= p@.drop_first());
            Rule { pattern: rest, negate: true }
        } else {
            Rule { pattern: p.to_owned(), negate: false }
        };
        rules.push(rule);
        i = i + 1;
    }
    rules
}

/// The patterns that ship with the tool, used until a newer list is loaded.
pub open spec fn fallback_spec() -> Seq<Seq<char>> {
    seq![
        "lua/*.lua"@,
        "scenes/*.vcd"@,
        "particles/*.pcf"@,
        "resource/fonts/*.ttf"@,
        "scripts/vehicles/*.txt"@,
        "resource/localization/*/*.properties"@,
        "maps/*.bsp"@,
        "maps/*.lmp"@,
        "maps/*.nav"@,
        "maps/*.ain"@,
        "maps/thumb/*.png"@,
        "sound/*.wav"@,
        "sound/*.mp3"@,
        "sound/*.ogg"@,
        "materials/*.vmt"@,
        "materials/*.vtf"@,
        "materials/*.png"@,
        "materials/*.jpg"@,
        "materials/*.jpeg"@,
        "materials/colorcorrection/*.raw"@,
        "models/*.mdl"@,
        "models/*.phy"@,
        "models/*.ani"@,
        "models/*.vvd"@,
        "models/*.vtx"@,
        "!models/*.sw.vtx"@,
        "!models/*.360.vtx"@,
        "!models/*.xbox.vtx"@,
        "gamemodes/*/*.txt"@,
        "!gamemodes/*/*/*.txt"@,
        "gamemodes/*/*.fgd"@,
        "!gamemodes/*/*/*.fgd"@,
        "gamemodes/*/logo.png"@,
        "gamemodes/*/icon24.png"@,
        "gamemodes/*/gamemode/*.lua"@,
        "gamemodes/*/entities/effects/*.lua"@,
        "gamemodes/*/entities/weapons/*.lua"@,
        "gamemodes/*/entities/entities/*.lua"@,
        "gamemodes/*/backgrounds/*.png"@,
        "gamemodes/*/backgrounds/*.jpg"@,
        "gamemodes/*/backgrounds/*.jpeg"@,
        "gamemodes/*/content/models/*.mdl"@,
        "gamemodes/*/content/models/*.phy"@,
        "gamemodes/*/content/models/*.ani"@,
        "gamemodes/*/content/models/*.vvd"@,
        "gamemodes/*/content/models/*.vtx"@,
        "!gamemodes/*/content/models/*.sw.vtx"@,
        "!gamemodes/*/content/models/*.360.vtx"@,
        "!gamemodes/*/content/models/*.xbox.vtx"@,
        "gamemodes/*/content/materials/*.vmt"@,
        "gamemodes/*/content/materials/*.vtf"@,
        "gamemodes/*/content/materials/*.png"@,
        "gamemodes/*/content/materials/*.jpg"@,
        "gamemodes/*/content/materials/*.jpeg"@,
        "gamemodes/*/content/materials/colorcorrection/*.raw"@,
        "gamemodes/*/content/scenes/*.vcd"@,
        "gamemodes/*/content/particles/*.pcf"@,
        "gamemodes/*/content/resource/fonts/*.ttf"@,
        "gamemodes/*/content/scripts/vehicles/*.txt"@,
        "gamemodes/*/content/resource/localization/*/*.properties"@,
        "gamemodes/*/content/maps/*.bsp"@,
        "gamemodes/*/content/maps/*.nav"@,
        "gamemodes/*/content/maps/*.ain"@,
        "gamemodes/*/content/maps/thumb/*.png"@,
        "gamemodes/*/content/sound/*.wav"@,
        "gamemodes/*/content/sound/*.mp3"@,
        "gamemodes/*/content/sound/*.ogg"@,
        "data_static/*.txt"@,
        "data_static/*.dat"@,
        "data_static/*.json"@,
        "data_static/*.xml"@,
        "data_static/*.csv"@,
        "shaders/fxc/*.vcs"@
    ]
}

/// The patterns that ship with the tool.
pub fn fallback_patterns() -> (v: Vec<String>)
    ensures
        v.deep_view() == fallback_spec(),
{
    let mut v: Vec<String> = Vec::new();
    v.push("lua/*.lua".to_owned());
    v.push("scenes/*.vcd".to_owned());
    v.push("particles/*.pcf".to_owned());
    v.push("resource/fonts/*.ttf".to_owned());
    v.push("scripts/vehicles/*.txt".to_owned());
    v.push("resource/localization/*/*.properties".to_owned());
    v.push("maps/*.bsp".to_owned());
    v.push("maps/*.lmp".to_owned());
    v.push("maps/*.nav".to_owned());
    v.push("maps/*.ain".to_owned());
    v.push("maps/thumb/*.png".to_owned());
    v.push("sound/*.wav".to_owned());
    v.push("sound/*.mp3".to_owned());
    v.push("sound/*.ogg".to_owned());
    v.push("materials/*.vmt".to_owned());
    v.push("materials/*.vtf".to_owned());
    v.push("materials/*.png".to_owned());
    v.push("materials/*.jpg".to_owned());
    v.push("materials/*.jpeg".to_owned());
    v.push("materials/colorcorrection/*.raw".to_owned());
    v.push("models/*.mdl".to_owned());
    v.push("models/*.phy".to_owned());
    v.push("models/*.ani".to_owned());
    v.push("models/*.vvd".to_owned());
    v.push("models/*.vtx".to_owned());
    v.push("!models/*.sw.vtx".to_owned());
    v.push("!models/*.360.vtx".to_owned());
    v.push("!models/*.xbox.vtx".to_owned());
    v.push("gamemodes/*/*.txt".to_owned());
    v.push("!gamemodes/*/*/*.txt".to_owned());
    v.push("gamemodes/*/*.fgd".to_owned());
    v.push("!gamemodes/*/*/*.fgd".to_owned());
    v.push("gamemodes/*/logo.png".to_owned());
    v.push("gamemodes/*/icon24.png".to_owned());
    v.push("gamemodes/*/gamemode/*.lua".to_owned());
    v.push("gamemodes/*/entities/effects/*.lua".to_owned());
    v.push("gamemodes/*/entities/weapons/*.lua".to_owned());
    v.push("gamemodes/*/entities/entities/*.lua".to_owned());
    v.push("gamemodes/*/backgrounds/*.png".to_owned());
    v.push("gamemodes/*/backgrounds/*.jpg".to_owned());
    v.push("gamemodes/*/backgrounds/*.jpeg".to_owned());
    v.push("gamemodes/*/content/models/*.mdl".to_owned());
    v.push("gamemodes/*/content/models/*.phy".to_owned());
    v.push("gamemodes/*/content/models/*.ani".to_owned());
    v.push("gamemodes/*/content/models/*.vvd".to_owned());
    v.push("gamemodes/*/content/models/*.vtx".to_owned());
    v.push("!gamemodes/*/content/models/*.sw.vtx".to_owned());
    v.push("!gamemodes/*/content/models/*.360.vtx".to_owned());
    v.push("!gamemodes/*/content/models/*.xbox.vtx".to_owned());
    v.push("gamemodes/*/content/materials/*.vmt".to_owned());
    v.push("gamemodes/*/content/materials/*.vtf".to_owned());
    v.push("gamemodes/*/content/materials/*.png".to_owned());
    v.push("gamemodes/*/content/materials/*.jpg".to_owned());
    v.push("gamemodes/*/content/materials/*.jpeg".to_owned());
    v.push("gamemodes/*/content/materials/colorcorrection/*.raw".to_owned());
    v.push("gamemodes/*/content/scenes/*.vcd".to_owned());
    v.push("gamemodes/*/content/particles/*.pcf".to_owned());
    v.push("gamemodes/*/content/resource/fonts/*.ttf".to_owned());
    v.push("gamemodes/*/content/scripts/vehicles/*.txt".to_owned());
    v.push("gamemodes/*/content/resource/localization/*/*.properties".to_owned());
    v.push("gamemodes/*/content/maps/*.bsp".to_owned());
    v.push("gamemodes/*/content/maps/*.nav".to_owned());
    v.push("gamemodes/*/content/maps/*.ain".to_owned());
    v.push("gamemodes/*/content/maps/thumb/*.png".to_owned());
    v.push("gamemodes/*/content/sound/*.wav".to_owned());
    v.push("gamemodes/*/content/sound/*.mp3".to_owned());
    v.push("gamemodes/*/content/sound/*.ogg".to_owned());
    v.push("data_static/*.txt".to_owned());
    v.push("data_static/*.dat".to_owned());
    v.push("data_static/*.json".to_owned());
    v.push("data_static/*.xml".to_owned());
    v.push("data_static/*.csv".to_owned());
    v.push("shaders/fxc/*.vcs".to_owned());
    assert(v.deep_view() =~= fallback_spec());
    v
}

/// Whether `rel_path` may be part of an addon under `wl`.
pub fn is_allowed(wl: &Whitelist, rel_path: &str) -> (r: bool)
    ensures
        r == allowed_by(compiled(wl.patterns()), rel_path@),
        r == last_match_allows(compiled(wl.patterns()), rel_path@),
{
    proof {
        use_type_invariant(wl);
    }
    let ghost rules = compiled(wl.patterns());
    let mut valid = false;
    let mut i: usize = 0;
    while i < wl.rules.len()
        invariant
            i <= wl.rules.len(),
            rules == compiled(wl.patterns()),
            rules.len() == wl.rules.len(),
            forall|k: int| 0 <= k < wl.rules.len() ==> #[trigger] wl.rules@[k]@ == rules[k],
            valid == allowed_by(rules.take(i as int), rel_path@),
        decreases wl.rules.len() - i,
    {
        let r = &wl.rules[i];
        assert(rules.take(i + 1).drop_last() =~= rules.take(i as int));
        assert(rules.take(i + 1).last() == r@);
        if r.negate {
            if wild_matches(r.pattern.as_str(), rel_path) {
                valid = false;
            }
        } else if !valid && wild_matches(r.pattern.as_str(), rel_path) {
            valid = true;
        }
        i = i + 1;
    }
    assert(rules.take(i as int) =~= rules);
    proof {
        lemma_allowed_iff_last_match_allows(rules, rel_path@);
    }
    valid
}


/// The list of strings that `serde_json` reads from the JSON text `text`, if it holds one.
pub uninterp spec fn json_string_list(text: Seq<char>) -> Option<Seq<Seq<char>>>;

/// The JSON text that `serde_json` writes for the list of strings `list`.
pub uninterp spec fn json_of_string_list(list: Seq<Seq<char>>) -> Seq<char>;

/// Calls `serde_json::from_str::<Vec<String>>`, keeping the list or dropping the error.
/// The contract names the outcome `json_string_list` of the text and says no more of it.
#[verifier::external_body]
fn read_json_string_list(raw: &str) -> (r: Option<Vec<String>>)
    ensures
        match r {
            Some(v) => json_string_list(raw@) == Some(v.deep_view()),
            None => json_string_list(raw@) is None,
        },
{
    serde_json::from_str::<Vec<String>>(raw).ok()
}

/// Calls `serde_json::to_string` on a list of strings (which cannot fail for that type).
/// The contract names the text `json_of_string_list` and claims that reading it back with
/// `serde_json::from_str` gives the same list.
#[verifier::external_body]
fn write_json_string_list(list: &Vec<String>) -> (r: String)
    ensures
        r@ == json_of_string_list(list.deep_view()),
        json_string_list(r@) == Some(list.deep_view()),
{
    serde_json::to_string(list).unwrap_or_default()
}

/// The patterns after seeding a whitelist that held `before` with the stored text `stored`:
/// a stored non-empty JSON list of strings replaces them, anything else keeps them.
pub open spec fn seed_result(before: Seq<Seq<char>>, stored: Option<Seq<char>>) -> Seq<
    Seq<char>,
> {
    match stored {
        None => before,
        Some(t) => match json_string_list(t) {
            Some(p) => if p.len() > 0 {
                p
            } else {
                before
            },
            None => before,
        },
    }
}

/// Loads the patterns saved by `to_storage_string`, if there are any and they can be read.
pub fn seed(wl: &mut Whitelist, stored: Option<String>)
    ensures
        final(wl).patterns() == seed_result(
            old(wl).patterns(),
            match stored {
                Some(s) => Some(s@),
                None => None,
            },
        ),
{
    let raw = match stored {
        Some(raw) => raw,
        None => return ,
    };
    let patterns = match read_json_string_list(raw.as_str()) {
        Some(p) => p,
        None => return ,
    };
    if patterns.len() == 0 {
        assert(patterns.deep_view().len() == 0);
        return ;
    }
    assert(patterns.deep_view().len() == patterns@.len());
    let rules = compile(&patterns);
    *wl = Whitelist { rules, latest: patterns };
}

/// The text under which the current patterns are saved.
pub fn to_storage_string(wl: &Whitelist) -> (r: String)
    ensures
        r@ == json_of_string_list(wl.patterns()),
        json_string_list(r@) == Some(wl.patterns()),
        wl.patterns().len() > 0,
{
    proof {
        use_type_invariant(wl);
        assert(wl.latest.deep_view().len() == wl.latest@.len());
    }
    write_json_string_list(&wl.latest)
}

/// Seeding any whitelist with a saved text restores the saved patterns: `to_storage_string`
/// promises that `json_string_list` reads its patterns back from the text it returns, and
/// a whitelist always holds at least one pattern.
pub proof fn lemma_seed_restores_saved(
    saved: Seq<Seq<char>>,
    before: Seq<Seq<char>>,
    text: Seq<char>,
)
    requires
        json_string_list(text) == Some(saved),
        saved.len() > 0,
    ensures
        seed_result(before, Some(text)) == saved,
{
}

/// The marker after which the header lists its wildcards.
pub open spec fn header_marker() -> Seq<char> {
    "Wildcard[] ="@
}

/// The marker that starts a comment.
pub open spec fn comment_marker() -> Seq<char> {
    "//"@
}

/// The text after the first `{` that follows the first `Wildcard[] =` of `src`.
pub open spec fn header_body(src: Seq<char>) -> Option<Seq<char>> {
    let i = sub_index(src, header_marker());
    if i < 0 {
        None
    } else {
        let rest = src.skip(i + header_marker().len());
        let j = index_of(rest, '{');
        if j < rest.len() {
            Some(rest.skip(j + 1))
        } else {
            None
        }
    }
}

/// The code of a line: what comes before its first `//`, trimmed.
pub open spec fn line_code(line: Seq<char>) -> Seq<char> {
    let k = sub_index(line, comment_marker());
    trim(
        if k < 0 {
            line
        } else {
            line.take(k)
        },
    )
}

/// Whether a line's code starts with `NULL`, which ends the list.
pub open spec fn is_null_line(code: Seq<char>) -> bool {
    code.len() >= 4 && code[0] == 'N' && code[1] == 'U' && code[2] == 'L' && code[3] == 'L'
}

/// The text between the first and the last `"` of `code`, when they differ.
pub open spec fn quoted(code: Seq<char>) -> Option<Seq<char>> {
    let a = index_of(code, '"');
    let b = last_index_of(code, '"');
    if a < code.len() && b > a {
        Some(code.subrange(a + 1, b))
    } else {
        None
    }
}

/// The quoted patterns of the lines of `body`, up to the first line whose code starts with
/// `NULL`.
pub open spec fn header_patterns(body: Seq<char>) -> Seq<Seq<char>>
    decreases body.len(),
{
    let n = index_of(body, '\n');
    proof {
        lemma_index_of_bounds(body, '\n');
    }
    let code = line_code(body.take(n));
    if is_null_line(code) {
        seq![]
    } else {
        let here = match quoted(code) {
            Some(q) => seq![q],
            None => seq![],
        };
        if n < body.len() {
            here + header_patterns(body.skip(n + 1))
        } else {
            here
        }
    }
}

/// A blank line adds nothing to the list: doubling any line break of a header body (so
/// that an empty line follows it) leaves the patterns read from it unchanged, wherever it
/// stands, between two pattern lines included.
pub proof fn lemma_blank_line_ignored(a: Seq<char>, b: Seq<char>)
    ensures
        header_patterns(a + seq!['\n'] + b) == header_patterns(a + seq!['\n', '\n'] + b),
    decreases a.len(),
{
    let x = a + seq!['\n'] + b;
    let y = a + seq!['\n', '\n'] + b;
    let m = index_of(a, '\n');
    lemma_index_of_bounds(a, '\n');
    if m < a.len() {
        assert forall|k: int| 0 <= k < m implies x[k] != '\n' by {
            assert(x[k] == a[k]);
        }
        assert forall|k: int| 0 <= k < m implies y[k] != '\n' by {
            assert(y[k] == a[k]);
        }
        assert(x[m] == a[m] && y[m] == a[m]);
        lemma_index_of_at(x, '\n', m);
        lemma_index_of_at(y, '\n', m);
        assert(x.take(m) =~= y.take(m));
        let a2 = a.skip(m + 1);
        assert(x.skip(m + 1) =~= a2 + seq!['\n'] + b);
        assert(y.skip(m + 1) =~= a2 + seq!['\n', '\n'] + b);
        lemma_blank_line_ignored(a2, b);
    } else {
        assert forall|k: int| 0 <= k < a.len() implies x[k] != '\n' by {
            assert(x[k] == a[k]);
        }
        assert forall|k: int| 0 <= k < a.len() implies y[k] != '\n' by {
            assert(y[k] == a[k]);
        }
        lemma_index_of_at(x, '\n', a.len() as int);
        lemma_index_of_at(y, '\n', a.len() as int);
        assert(x.take(a.len() as int) =~= y.take(a.len() as int));
        assert(x.skip(a.len() as int + 1) =~= b);
        let z = y.skip(a.len() as int + 1);
        assert(z =~= seq!['\n'] + b);
        lemma_index_of_at(z, '\n', 0);
        reveal_strlit("//");
        let empty = z.take(0);
        assert(empty =~= Seq::<char>::empty());
        assert(sub_index(empty, comment_marker()) < 0);
        assert(trim(empty) =~= Seq::<char>::empty());
        assert(line_code(empty) =~= Seq::<char>::empty());
        assert(quoted(line_code(empty)) is None);
        assert(z.skip(1) =~= b);
        assert(header_patterns(z) == Seq::<Seq<char>>::empty() + header_patterns(b));
        assert(Seq::<Seq<char>>::empty() + header_patterns(b) =~= header_patterns(b));
    }
}

/// Two header sources whose lists differ only by a blank line read the same patterns.
pub proof fn lemma_header_blank_line_ignored(s1: Seq<char>, s2: Seq<char>, a: Seq<char>, b: Seq<char>)
    requires
        header_body(s1) == Some(a + seq!['\n'] + b),
        header_body(s2) == Some(a + seq!['\n', '\n'] + b),
    ensures
        parse_header_spec(s1) == parse_header_spec(s2),
{
    lemma_blank_line_ignored(a, b);
}

/// The wildcard list of the packer's header source, when it holds at least 20 patterns
/// (fewer means the page layout changed and the list is not to be trusted).
pub open spec fn parse_header_spec(src: Seq<char>) -> Option<Seq<Seq<char>>> {
    match header_body(src) {
        None => None,
        Some(body) => {
            let out = header_patterns(body);
            if out.len() >= 20 {
                Some(out)
            } else {
                None
            }
        },
    }
}

/// Reads the wildcard list out of the packer's header source.
pub fn parse_header(src: &str) -> (r: Option<Vec<String>>)
    ensures
        match r {
            Some(v) => parse_header_spec(src@) == Some(v.deep_view()),
            None => parse_header_spec(src@) is None,
        },
{
    let v = chars_of(src);
    let len = v.len();
    let marker = chars_of("Wildcard[] =");
    assert(v@.subrange(0, len as int) =~= src@);
    let i = match find_sub(&v, 0, len, &marker) {
        Some(i) => i,
        None => return None,
    };
    let start = i + marker.len();
    assert(src@.skip(i + header_marker().len()) =~= v@.subrange(start as int, len as int));
    let j = find_char(&v, start, len, '{');
    if j >= len {
        return None;
    }
    let ghost body = v@.subrange(j + 1, len as int);
    assert(v@.subrange(start as int, len as int).skip(j - start + 1) =~= body);
    assert(header_body(src@) == Some(body));
    let comment = chars_of("//");
    let mut out: Vec<String> = Vec::new();
    let mut pos = j + 1;
    assert(out.deep_view() =~= Seq::<Seq<char>>::empty());
    loop
        invariant
            j + 1 <= pos <= len,
            len == v.len(),
            v@ == src@,
            comment@ == comment_marker(),
            body == v@.subrange(j + 1, len as int),
            header_body(src@) == Some(body),
            header_patterns(body) == out.deep_view() + header_patterns(
                v@.subrange(pos as int, len as int),
            ),
        decreases len - pos,
    {
        let ghost rest = v@.subrange(pos as int, len as int);
        let n = find_char(&v, pos, len, '\n');
        let ghost line = v@.subrange(pos as int, n as int);
        assert(rest.take(n - pos) =~= line);
        let ce = match find_sub(&v, pos, n, &comment) {
            Some(k) => {
                assert(line.take(k - pos) =~= v@.subrange(pos as int, k as int));
                k
            },
            None => n,
        };
        let (ca, cb) = trim_bounds(&v, pos, ce);
        let ghost code = v@.subrange(ca as int, cb as int);
        assert(code == line_code(line));
        if cb - ca >= 4 && v[ca] == 'N' && v[ca + 1] == 'U' && v[ca + 2] == 'L' && v[ca + 3]
            == 'L' {
            assert(header_patterns(rest) =~= Seq::<Seq<char>>::empty());
            assert(out.deep_view() + Seq::<Seq<char>>::empty() =~= out.deep_view());
            return if out.len() >= 20 {
                assert(out.deep_view().len() == out@.len());
                Some(out)
            } else {
                assert(out.deep_view().len() == out@.len());
                None
            };
        }
        assert(!is_null_line(code));
        let a = find_char(&v, ca, cb, '"');
        let ghost here: Seq<Seq<char>> = match quoted(code) {
            Some(q) => seq![q],
            None => seq![],
        };
        let ghost before = out.deep_view();
        if a < cb {
            match rfind_char(&v, ca, cb, '"') {
                Some(b) => {
                    if b > a {
                        let pat = src.substring_char(a + 1, b).to_owned();
                        assert(pat@ =~= code.subrange(a - ca + 1, b - ca));
                        out.push(pat);
                        assert(out.deep_view() =~= before + here);
                    } else {
                        assert(out.deep_view() =~= before + here);
                    }
                },
                None => {
                    assert(out.deep_view() =~= before + here);
                },
            }
        } else {
            assert(out.deep_view() =~= before + here);
        }
        if n >= len {
            assert(header_patterns(rest) == here);
            assert(out.deep_view() + Seq::<Seq<char>>::empty() =~= out.deep_view());
            return if out.len() >= 20 {
                assert(out.deep_view().len() == out@.len());
                Some(out)
            } else {
                assert(out.deep_view().len() == out@.len());
                None
            };
        }
        assert(rest.skip(n - pos + 1) =~= v@.subrange(n + 1, len as int));
        assert(header_patterns(rest) == here + header_patterns(v@.subrange(n + 1, len as int)));
        assert(out.deep_view() + header_patterns(v@.subrange(n + 1, len as int)) =~= before + (
        here + header_patterns(v@.subrange(n + 1, len as int))));
        pos = n + 1;
    }
}

/// Takes the packer's header source fetched from upstream: when it holds a wildcard list,
/// that list becomes the whitelist and `true` is returned; otherwise nothing changes.
pub fn refresh_with(wl: &mut Whitelist, body: &str) -> (r: bool)
    ensures
        r == parse_header_spec(body@) is Some,
        r ==> final(wl).patterns() == parse_header_spec(body@).unwrap(),
        !r ==> final(wl).patterns() == old(wl).patterns(),
{
    let patterns = match parse_header(body) {
        Some(p) => p,
        None => return false,
    };
    assert(patterns.deep_view().len() == patterns@.len());
    let rules = compile(&patterns);
    *wl = Whitelist { rules, latest: patterns };
    true
}

} // verus!
