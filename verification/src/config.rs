//! Rules and the choice of which rules run: by tag or by id, each possibly
//! negated with a leading `!`.

use vstd::prelude::*;
use crate::path::{spec_file_stem, spec_extension, spec_join, spec_parent, spec_path_eq, file_stem, extension, join, parent, path_eq};
use crate::text::{listed, is_listed, ends_with, opt_chars, chars_of, vec_ends_with, str_eq, copy_str};

verus! {

/// A rule, as far as choosing it goes: its id, its tags, and whether files
/// it handles go on to later rules.
#[derive(Debug)]
pub struct Rule {
    pub id: Option<String>,
    pub tags: Vec<String>,
    pub continue_matching: bool,
}

impl Default for Rule {
    /// A rule with no id and no tags, after which files go to no later rule.
    fn default() -> (r: Rule)
        ensures
            r.id is None,
            r.tags@.len() == 0,
            !r.continue_matching,
    {
        Rule { id: None, tags: Vec::new(), continue_matching: false }
    }
}

/// A configuration: its rules, in order, and the file it was read from.
#[derive(Debug)]
pub struct Config {
    pub rules: Vec<Rule>,
    pub path: String,
}

/// A chosen tag or id that is negated.
pub open spec fn is_bang(t: Seq<char>) -> bool {
    t.len() > 0 && t[0] == '!'
}

/// `t` without its first `!`, wherever it is.
pub open spec fn without_first_bang(t: Seq<char>) -> Seq<char>
    decreases t.len(),
{
    if t.len() == 0 {
        t
    } else if t[0] == '!' {
        t.drop_first()
    } else {
        seq![t[0]] + without_first_bang(t.drop_first())
    }
}

/// `x` is chosen without negation.
pub open spec fn positive(chosen: Seq<String>, x: Seq<char>) -> bool {
    listed(chosen, x) && !is_bang(x)
}

/// `x` is chosen with a leading `!`.
pub open spec fn negative(chosen: Seq<String>, x: Seq<char>) -> bool {
    exists|i: int| 0 <= i < chosen.len() && #[trigger] is_bang(chosen[i]@) && chosen[i]@.drop_first() == x
}

/// Some choice is negated.
pub open spec fn has_negative(chosen: Seq<String>) -> bool {
    exists|i: int| 0 <= i < chosen.len() && #[trigger] is_bang(chosen[i]@)
}

/// Some rule carries the tag `x`.
pub open spec fn tag_known(rules: Seq<Rule>, x: Seq<char>) -> bool {
    exists|i: int| 0 <= i < rules.len() && listed(#[trigger] rules[i].tags@, x)
}

/// Every chosen tag is carried by some rule, with or without its `!`.
pub open spec fn tags_known(rules: Seq<Rule>, chosen: Seq<String>) -> bool {
    forall|i: int| 0 <= i < chosen.len() ==>
        tag_known(rules, #[trigger] chosen[i]@) || tag_known(rules, without_first_bang(chosen[i]@))
}

/// The rule carries a tag chosen without negation.
pub open spec fn hits_positive(chosen: Seq<String>, r: Rule) -> bool {
    exists|j: int| 0 <= j < r.tags@.len() && positive(chosen, #[trigger] r.tags@[j]@)
}

/// The rule carries none of the negated tags.
pub open spec fn avoids_negative(chosen: Seq<String>, r: Rule) -> bool {
    forall|j: int| 0 <= j < r.tags@.len() ==> !negative(chosen, #[trigger] r.tags@[j]@)
}

/// A rule is picked by the chosen tags: it carries a positive tag, or, when
/// some tag is negated, it carries none of the negated ones.
pub open spec fn picks_by_tag(chosen: Seq<String>, r: Rule) -> bool {
    hits_positive(chosen, r) || (has_negative(chosen) && avoids_negative(chosen, r))
}

/// `x` is a tag of some picked rule.
pub open spec fn selected_tag(rules: Seq<Rule>, chosen: Seq<String>, x: Seq<char>) -> bool {
    exists|i: int| 0 <= i < rules.len() && listed(#[trigger] rules[i].tags@, x) && picks_by_tag(chosen, rules[i])
}

/// The rule carries a tag of some picked rule.
pub open spec fn runs_by_tag(rules: Seq<Rule>, chosen: Seq<String>, r: Rule) -> bool {
    exists|j: int| 0 <= j < r.tags@.len() && selected_tag(rules, chosen, #[trigger] r.tags@[j]@)
}

/// The rules of `rules` that satisfy `pred`, in their order.
pub open spec fn keep(rules: Seq<Rule>, pred: spec_fn(Rule) -> bool) -> Seq<Rule>
    decreases rules.len(),
{
    if rules.len() == 0 {
        seq![]
    } else {
        let k = keep(rules.drop_last(), pred);
        if pred(rules.last()) { k.push(rules.last()) } else { k }
    }
}

/// The rules that run for the chosen tags: none when a chosen tag is
/// unknown, else those carrying a tag of some picked rule.
pub open spec fn rules_by_tag(rules: Seq<Rule>, chosen: Seq<String>) -> Seq<Rule> {
    if tags_known(rules, chosen) {
        keep(rules, |r: Rule| runs_by_tag(rules, chosen, r))
    } else {
        seq![]
    }
}

/// The rule has the id `x`.
pub open spec fn has_id(r: Rule, x: Seq<char>) -> bool {
    match r.id {
        Some(s) => s@ == x,
        None => false,
    }
}

/// Some rule has the id `x`.
pub open spec fn id_known(rules: Seq<Rule>, x: Seq<char>) -> bool {
    exists|i: int| 0 <= i < rules.len() && has_id(#[trigger] rules[i], x)
}

/// Every chosen id belongs to some rule, with or without its `!`.
pub open spec fn ids_known(rules: Seq<Rule>, chosen: Seq<String>) -> bool {
    forall|i: int| 0 <= i < chosen.len() ==>
        id_known(rules, #[trigger] chosen[i]@) || id_known(rules, without_first_bang(chosen[i]@))
}

/// A rule runs for the chosen ids: it has an id, chosen without negation,
/// or, when some id is negated, not negated.
pub open spec fn runs_by_id(chosen: Seq<String>, r: Rule) -> bool {
    match r.id {
        Some(s) => positive(chosen, s@) || (has_negative(chosen) && !negative(chosen, s@)),
        None => false,
    }
}

/// The rules that run for the chosen ids: none when a chosen id is unknown.
pub open spec fn rules_by_id(rules: Seq<Rule>, chosen: Seq<String>) -> Seq<Rule> {
    if ids_known(rules, chosen) {
        keep(rules, |r: Rule| runs_by_id(chosen, r))
    } else {
        seq![]
    }
}

/// The references in `v`, as values.
pub open spec fn derefs<'a>(v: Seq<&'a Rule>) -> Seq<Rule> {
    v.map_values(|r: &Rule| *r)
}

fn is_bang_str(t: &str) -> (b: bool)
    ensures
        b == is_bang(t@),
{
    t.unicode_len() > 0 && t.get_char(0) == '!'
}

fn drop_first_char(t: &str) -> (r: String)
    requires
        t@.len() > 0,
    ensures
        r@ == t@.drop_first(),
{
    let v = crate::text::chars_of(t);
    crate::text::string_from(&v, 1, v.len())
}

fn without_first_bang_exec(t: &str) -> (r: String)
    ensures
        r@ == without_first_bang(t@),
{
    let v = crate::text::chars_of(t);
    let mut i: usize = 0;
    proof {
        assert(v@.subrange(0, 0) + without_first_bang(v@.subrange(0, v.len() as int)) =~= without_first_bang(v@)) by {
            assert(v@.subrange(0, v.len() as int) =~= v@);
        }
    }
    while i < v.len() && v[i] != '!'
        invariant
            i <= v.len(),
            forall|k: int| 0 <= k < i ==> v@[k] != '!',
            without_first_bang(v@) == v@.subrange(0, i as int) + without_first_bang(v@.subrange(i as int, v.len() as int)),
        decreases v.len() - i,
    {
        proof {
            let rest = v@.subrange(i as int, v.len() as int);
            assert(rest.drop_first() =~= v@.subrange(i + 1, v.len() as int));
            assert(v@.subrange(0, i + 1) =~= v@.subrange(0, i as int) + seq![rest[0]]);
        }
        i = i + 1;
    }
    proof {
        assert(v@.subrange(0, 0) =~= Seq::<char>::empty());
        assert(v@.subrange(0, v.len() as int) =~= v@);
    }
    if i < v.len() {
        let mut r = crate::text::string_from(&v, 0, i);
        let tail = crate::text::chars_of(crate::text::string_from(&v, i + 1, v.len()).as_str());
        crate::text::push_all(&mut r, &tail);
        proof {
            let rest = v@.subrange(i as int, v.len() as int);
            assert(rest.drop_first() =~= v@.subrange(i + 1, v.len() as int));
        }
        r
    } else {
        proof {
            assert(v@.subrange(v.len() as int, v.len() as int) =~= Seq::<char>::empty());
        }
        crate::text::string_from(&v, 0, v.len())
    }
}

/// `x` is among the first `n` chosen items.
pub open spec fn seen(chosen: Seq<String>, n: int, x: Seq<char>) -> bool {
    exists|k: int| 0 <= k < n && #[trigger] chosen[k]@ == x
}

/// `x` is, without its `!`, among the first `n` chosen items that are negated.
pub open spec fn neg_seen(chosen: Seq<String>, n: int, x: Seq<char>) -> bool {
    exists|k: int| 0 <= k < n && is_bang(#[trigger] chosen[k]@) && chosen[k]@.drop_first() == x
}

/// Some of the first `n` chosen items is negated.
pub open spec fn bang_seen(chosen: Seq<String>, n: int) -> bool {
    exists|k: int| 0 <= k < n && is_bang(#[trigger] chosen[k]@)
}

proof fn lemma_seen_step(chosen: Seq<String>, n: int)
    requires
        0 <= n < chosen.len(),
    ensures
        forall|x: Seq<char>| seen(chosen, n + 1, x) <==> (seen(chosen, n, x) || chosen[n]@ == x),
        forall|x: Seq<char>| neg_seen(chosen, n + 1, x) <==>
            (neg_seen(chosen, n, x) || (is_bang(chosen[n]@) && chosen[n]@.drop_first() == x)),
        bang_seen(chosen, n + 1) <==> (bang_seen(chosen, n) || is_bang(chosen[n]@)),
{
    assert forall|x: Seq<char>| seen(chosen, n + 1, x) <==> (seen(chosen, n, x) || chosen[n]@ == x) by {
        if seen(chosen, n + 1, x) {
            let k = choose|k: int| 0 <= k < n + 1 && #[trigger] chosen[k]@ == x;
            if k < n {
                assert(seen(chosen, n, x));
            }
        }
        if seen(chosen, n, x) {
            let k = choose|k: int| 0 <= k < n && #[trigger] chosen[k]@ == x;
            assert(seen(chosen, n + 1, x));
        }
        if chosen[n]@ == x {
            assert(seen(chosen, n + 1, x));
        }
    }
    assert forall|x: Seq<char>| neg_seen(chosen, n + 1, x) <==>
        (neg_seen(chosen, n, x) || (is_bang(chosen[n]@) && chosen[n]@.drop_first() == x)) by {
        if neg_seen(chosen, n + 1, x) {
            let k = choose|k: int| 0 <= k < n + 1 && is_bang(#[trigger] chosen[k]@) && chosen[k]@.drop_first() == x;
            if k < n {
                assert(neg_seen(chosen, n, x));
            }
        }
        if neg_seen(chosen, n, x) {
            let k = choose|k: int| 0 <= k < n && is_bang(#[trigger] chosen[k]@) && chosen[k]@.drop_first() == x;
            assert(neg_seen(chosen, n + 1, x));
        }
        if is_bang(chosen[n]@) && chosen[n]@.drop_first() == x {
            assert(neg_seen(chosen, n + 1, x));
        }
    }
    if bang_seen(chosen, n + 1) {
        let k = choose|k: int| 0 <= k < n + 1 && is_bang(#[trigger] chosen[k]@);
        if k < n {
            assert(bang_seen(chosen, n));
        }
    }
    if bang_seen(chosen, n) {
        let k = choose|k: int| 0 <= k < n && is_bang(#[trigger] chosen[k]@);
        assert(bang_seen(chosen, n + 1));
    }
    if is_bang(chosen[n]@) {
        assert(bang_seen(chosen, n + 1));
    }
}

proof fn lemma_listed_push(v: Seq<String>, s: String)
    ensures
        forall|x: Seq<char>| #[trigger] listed(v.push(s), x) <==> (listed(v, x) || s@ == x),
{
    assert forall|x: Seq<char>| listed(v.push(s), x) <==> (listed(v, x) || s@ == x) by {
        if listed(v.push(s), x) {
            let j = choose|j: int| 0 <= j < v.len() + 1 && #[trigger] v.push(s)[j]@ == x;
            if j < v.len() {
                assert(v[j]@ == x);
            }
        }
        if listed(v, x) {
            let j = choose|j: int| 0 <= j < v.len() && #[trigger] v[j]@ == x;
            assert(v.push(s)[j]@ == x);
        }
        if s@ == x {
            assert(v.push(s)[v.len() as int]@ == x);
        }
    }
}

/// The chosen items without negation, and the negated ones without their `!`.
fn split_chosen(chosen: &Vec<String>) -> (r: (Vec<String>, Vec<String>))
    ensures
        forall|x: Seq<char>| #[trigger] listed(r.0@, x) <==> positive(chosen@, x),
        forall|x: Seq<char>| #[trigger] listed(r.1@, x) <==> negative(chosen@, x),
        (r.1@.len() > 0) == has_negative(chosen@),
{
    let mut pos: Vec<String> = Vec::new();
    let mut neg: Vec<String> = Vec::new();
    let mut i: usize = 0;
    while i < chosen.len()
        invariant
            i <= chosen.len(),
            forall|x: Seq<char>| #[trigger] listed(pos@, x) <==> (!is_bang(x) && seen(chosen@, i as int, x)),
            forall|x: Seq<char>| #[trigger] listed(neg@, x) <==> neg_seen(chosen@, i as int, x),
            (neg@.len() > 0) == bang_seen(chosen@, i as int),
        decreases chosen.len() - i,
    {
        proof {
            lemma_seen_step(chosen@, i as int);
        }
        let ghost old_pos = pos@;
        let ghost old_neg = neg@;
        let ghost oi = i as int;
        let t = &chosen[i];
        assert(t@ == chosen@[i as int]@);
        if is_bang_str(t.as_str()) {
            let d = drop_first_char(t.as_str());
            proof {
                lemma_listed_push(neg@, d);
            }
            neg.push(d);
        } else {
            let c = t.clone();
            assert(c@ == chosen@[i as int]@);
            assert(!is_bang(c@));
            proof {
                lemma_listed_push(pos@, c);
            }
            pos.push(c);
        }
        i = i + 1;
        proof {
            assert(i as int == oi + 1);
            assert forall|x: Seq<char>| listed(pos@, x) <==> (!is_bang(x) && seen(chosen@, i as int, x)) by {
                assert(seen(chosen@, oi + 1, x) <==> (seen(chosen@, oi, x) || chosen@[oi]@ == x));
                if listed(pos@, x) {
                    if listed(old_pos, x) {
                        assert(!is_bang(x) && seen(chosen@, oi, x));
                    } else {
                        assert(x == chosen@[oi]@);
                    }
                }
                if !is_bang(x) && seen(chosen@, i as int, x) {
                    if seen(chosen@, oi, x) {
                        assert(listed(old_pos, x));
                    } else {
                        assert(x == chosen@[oi]@);
                    }
                }
            }
            assert forall|x: Seq<char>| listed(neg@, x) <==> neg_seen(chosen@, i as int, x) by {
                assert(neg_seen(chosen@, oi + 1, x) <==>
                    (neg_seen(chosen@, oi, x) || (is_bang(chosen@[oi]@) && chosen@[oi]@.drop_first() == x)));
                if listed(neg@, x) {
                    if listed(old_neg, x) {
                        assert(neg_seen(chosen@, oi, x));
                    } else {
                        assert(is_bang(chosen@[oi]@) && chosen@[oi]@.drop_first() == x);
                    }
                }
                if neg_seen(chosen@, i as int, x) {
                    if neg_seen(chosen@, oi, x) {
                        assert(listed(old_neg, x));
                    }
                }
            }
        }
    }
    proof {
        assert forall|x: Seq<char>| seen(chosen@, chosen@.len() as int, x) <==> listed(chosen@, x) by {
            if listed(chosen@, x) {
                let k = choose|k: int| 0 <= k < chosen@.len() && #[trigger] chosen@[k]@ == x;
                assert(seen(chosen@, chosen@.len() as int, x));
            }
        }
    }
    (pos, neg)
}

/// Whether some of `tags` is listed in `set`.
fn any_listed(tags: &Vec<String>, set: &Vec<String>) -> (b: bool)
    ensures
        b == exists|j: int| 0 <= j < tags@.len() && listed(set@, #[trigger] tags@[j]@),
{
    let mut j: usize = 0;
    while j < tags.len()
        invariant
            j <= tags.len(),
            forall|k: int| 0 <= k < j ==> !listed(set@, #[trigger] tags@[k]@),
        decreases tags.len() - j,
    {
        if is_listed(set, tags[j].as_str()) {
            return true;
        }
        j = j + 1;
    }
    false
}

/// Whether some rule carries the tag `x`.
fn tag_known_exec(rules: &Vec<Rule>, x: &str) -> (b: bool)
    ensures
        b == tag_known(rules@, x@),
{
    let mut i: usize = 0;
    while i < rules.len()
        invariant
            i <= rules.len(),
            forall|k: int| 0 <= k < i ==> !listed(#[trigger] rules@[k].tags@, x@),
        decreases rules.len() - i,
    {
        if is_listed(&rules[i].tags, x) {
            return true;
        }
        i = i + 1;
    }
    false
}

/// Whether some rule has the id `x`.
fn id_known_exec(rules: &Vec<Rule>, x: &str) -> (b: bool)
    ensures
        b == id_known(rules@, x@),
{
    let mut i: usize = 0;
    while i < rules.len()
        invariant
            i <= rules.len(),
            forall|k: int| 0 <= k < i ==> !has_id(#[trigger] rules@[k], x@),
        decreases rules.len() - i,
    {
        match &rules[i].id {
            Some(id) => {
                if crate::text::str_eq(id.as_str(), x) {
                    return true;
                }
            },
            None => {},
        }
        i = i + 1;
    }
    false
}

proof fn lemma_keep_step(s: Seq<Rule>, pred: spec_fn(Rule) -> bool, i: int)
    requires
        0 <= i < s.len(),
    ensures
        keep(s.subrange(0, i + 1), pred) == if pred(s[i]) {
            keep(s.subrange(0, i), pred).push(s[i])
        } else {
            keep(s.subrange(0, i), pred)
        },
{
    assert(s.subrange(0, i + 1).drop_last() =~= s.subrange(0, i));
    assert(s.subrange(0, i + 1).last() == s[i]);
}

impl Config {
    /// The first chosen tag that no rule carries, with or without its `!`.
    pub fn unknown_tag(&self, tags: &Vec<String>) -> (r: Option<String>)
        ensures
            r is None <==> tags_known(self.rules@, tags@),
            r matches Some(t) ==> listed(tags@, t@),
    {
        let mut i: usize = 0;
        while i < tags.len()
            invariant
                i <= tags.len(),
                forall|k: int| 0 <= k < i ==>
                    tag_known(self.rules@, #[trigger] tags@[k]@) || tag_known(self.rules@, without_first_bang(tags@[k]@)),
            decreases tags.len() - i,
        {
            let t = &tags[i];
            let stripped = without_first_bang_exec(t.as_str());
            if !tag_known_exec(&self.rules, t.as_str()) && !tag_known_exec(&self.rules, stripped.as_str()) {
                assert(tags@[i as int]@ == t@);
                return Some(t.clone());
            }
            i = i + 1;
        }
        None
    }

    /// The first chosen id that no rule has, with or without its `!`.
    pub fn unknown_id(&self, ids: &Vec<String>) -> (r: Option<String>)
        ensures
            r is None <==> ids_known(self.rules@, ids@),
            r matches Some(t) ==> listed(ids@, t@),
    {
        let mut i: usize = 0;
        while i < ids.len()
            invariant
                i <= ids.len(),
                forall|k: int| 0 <= k < i ==>
                    id_known(self.rules@, #[trigger] ids@[k]@) || id_known(self.rules@, without_first_bang(ids@[k]@)),
            decreases ids.len() - i,
        {
            let t = &ids[i];
            let stripped = without_first_bang_exec(t.as_str());
            if !id_known_exec(&self.rules, t.as_str()) && !id_known_exec(&self.rules, stripped.as_str()) {
                assert(ids@[i as int]@ == t@);
                return Some(t.clone());
            }
            i = i + 1;
        }
        None
    }

    /// The rules that run for the chosen tags, in their order.
    ///
    /// A tag with a leading `!` is negated. The rules picked are those that
    /// carry a tag chosen without negation, and, when some tag is negated,
    /// those that carry none of the negated tags; every rule that shares a
    /// tag with a picked rule runs. When a chosen tag is carried by no rule,
    /// with or without its `!`, no rule runs.
    pub fn filter_rules_by_tag(&self, tags: &Vec<String>) -> (res: Vec<&Rule>)
        ensures
            derefs(res@) == rules_by_tag(self.rules@, tags@),
    {
        if self.unknown_tag(tags).is_some() {
            return Vec::new();
        }
        let ghost rules = self.rules@;
        let ghost chosen = tags@;
        let (pos, neg) = split_chosen(tags);
        let mut sel: Vec<String> = Vec::new();
        let mut i: usize = 0;
        while i < self.rules.len()
            invariant
                rules == self.rules@,
                chosen == tags@,
                i <= self.rules.len(),
                forall|x: Seq<char>| #[trigger] listed(pos@, x) <==> positive(chosen, x),
                forall|x: Seq<char>| #[trigger] listed(neg@, x) <==> negative(chosen, x),
                (neg@.len() > 0) == has_negative(chosen),
                forall|x: Seq<char>| #[trigger] listed(sel@, x) <==>
                    (exists|k: int| 0 <= k < i && listed(#[trigger] rules[k].tags@, x) && picks_by_tag(chosen, rules[k])),
            decreases self.rules.len() - i,
        {
            let r = &self.rules[i];
            let hp = any_listed(&r.tags, &pos);
            let hn = any_listed(&r.tags, &neg);
            proof {
                assert(hp == hits_positive(chosen, *r)) by {
                    if hp {
                        let j = choose|j: int| 0 <= j < r.tags@.len() && listed(pos@, #[trigger] r.tags@[j]@);
                        assert(positive(chosen, r.tags@[j]@));
                    }
                    if hits_positive(chosen, *r) {
                        let j = choose|j: int| 0 <= j < r.tags@.len() && positive(chosen, #[trigger] r.tags@[j]@);
                        assert(listed(pos@, r.tags@[j]@));
                    }
                }
                assert(!hn == avoids_negative(chosen, *r)) by {
                    if hn {
                        let j = choose|j: int| 0 <= j < r.tags@.len() && listed(neg@, #[trigger] r.tags@[j]@);
                        assert(negative(chosen, r.tags@[j]@));
                    }
                    if !avoids_negative(chosen, *r) {
                        let j = choose|j: int| 0 <= j < r.tags@.len() && negative(chosen, #[trigger] r.tags@[j]@);
                        assert(listed(neg@, r.tags@[j]@));
                    }
                }
            }
            let picked = hp || (neg.len() > 0 && !hn);
            let ghost before = sel@;
            if picked {
                let mut j: usize = 0;
                while j < r.tags.len()
                    invariant
                        j <= r.tags.len(),
                        forall|x: Seq<char>| #[trigger] listed(sel@, x) <==> (listed(before, x) || seen(r.tags@, j as int, x)),
                    decreases r.tags.len() - j,
                {
                    let c = r.tags[j].clone();
                    proof {
                        lemma_listed_push(sel@, c);
                        lemma_seen_step(r.tags@, j as int);
                    }
                    sel.push(c);
                    j = j + 1;
                    proof {
                        assert forall|x: Seq<char>| #[trigger] listed(sel@, x) <==> (listed(before, x) || seen(r.tags@, j as int, x)) by {
                            assert(seen(r.tags@, j - 1 + 1, x) <==> (seen(r.tags@, j - 1, x) || r.tags@[j - 1]@ == x));
                        }
                    }
                }
                proof {
                    assert forall|x: Seq<char>| seen(r.tags@, r.tags@.len() as int, x) <==> listed(r.tags@, x) by {
                        if listed(r.tags@, x) {
                            let m = choose|m: int| 0 <= m < r.tags@.len() && #[trigger] r.tags@[m]@ == x;
                            assert(seen(r.tags@, r.tags@.len() as int, x));
                        }
                    }
                }
            }
            proof {
                assert(*r == rules[i as int]);
                assert forall|x: Seq<char>| #[trigger] listed(sel@, x) <==>
                    (exists|k: int| 0 <= k < i + 1 && listed(#[trigger] rules[k].tags@, x) && picks_by_tag(chosen, rules[k])) by {
                    if picked && listed(rules[i as int].tags@, x) {
                        assert(listed(sel@, x));
                    }
                    if exists|k: int| 0 <= k < i + 1 && listed(#[trigger] rules[k].tags@, x) && picks_by_tag(chosen, rules[k]) {
                        let k = choose|k: int| 0 <= k < i + 1 && listed(#[trigger] rules[k].tags@, x) && picks_by_tag(chosen, rules[k]);
                        if k == i {
                            assert(listed(sel@, x));
                        } else {
                            assert(listed(before, x));
                        }
                    }
                    if listed(sel@, x) {
                        if !listed(before, x) {
                            assert(listed(rules[i as int].tags@, x));
                        }
                    }
                }
            }
            i = i + 1;
        }
        let ghost pred = |r: Rule| runs_by_tag(rules, chosen, r);
        let mut res: Vec<&Rule> = Vec::new();
        let mut i: usize = 0;
        proof {
            assert(derefs(res@) =~= keep(rules.subrange(0, 0), pred));
        }
        while i < self.rules.len()
            invariant
                rules == self.rules@,
                chosen == tags@,
                i <= self.rules.len(),
                forall|x: Seq<char>| #[trigger] listed(sel@, x) <==> selected_tag(rules, chosen, x),
                pred == (|r: Rule| runs_by_tag(rules, chosen, r)),
                derefs(res@) == keep(rules.subrange(0, i as int), pred),
            decreases self.rules.len() - i,
        {
            let r = &self.rules[i];
            let hit = any_listed(&r.tags, &sel);
            proof {
                lemma_keep_step(rules, pred, i as int);
                assert(*r == rules[i as int]);
                assert(pred(*r) == runs_by_tag(rules, chosen, *r));
                assert(hit == runs_by_tag(rules, chosen, *r)) by {
                    if hit {
                        let j = choose|j: int| 0 <= j < r.tags@.len() && listed(sel@, #[trigger] r.tags@[j]@);
                        assert(selected_tag(rules, chosen, r.tags@[j]@));
                    }
                    if runs_by_tag(rules, chosen, *r) {
                        let j = choose|j: int| 0 <= j < r.tags@.len() && selected_tag(rules, chosen, #[trigger] r.tags@[j]@);
                        assert(listed(sel@, r.tags@[j]@));
                    }
                }
            }
            if hit {
                res.push(r);
                proof {
                    assert(derefs(res@) =~= keep(rules.subrange(0, i as int), pred).push(rules[i as int]));
                }
            }
            i = i + 1;
        }
        proof {
            assert(rules.subrange(0, rules.len() as int) =~= rules);
        }
        res
    }

    /// The rules that run for the chosen ids, in their order.
    ///
    /// An id with a leading `!` is negated. A rule runs when it has an id
    /// that is chosen without negation, or, when some id is negated, an id
    /// that is not negated. When a chosen id belongs to no rule, with or
    /// without its `!`, no rule runs.
    pub fn filter_rules_by_id(&self, ids: &Vec<String>) -> (res: Vec<&Rule>)
        ensures
            derefs(res@) == rules_by_id(self.rules@, ids@),
    {
        if self.unknown_id(ids).is_some() {
            return Vec::new();
        }
        let ghost rules = self.rules@;
        let ghost chosen = ids@;
        let ghost pred = |r: Rule| runs_by_id(chosen, r);
        let (pos, neg) = split_chosen(ids);
        let mut res: Vec<&Rule> = Vec::new();
        let mut i: usize = 0;
        proof {
            assert(derefs(res@) =~= keep(rules.subrange(0, 0), pred));
        }
        while i < self.rules.len()
            invariant
                rules == self.rules@,
                chosen == ids@,
                i <= self.rules.len(),
                forall|x: Seq<char>| #[trigger] listed(pos@, x) <==> positive(chosen, x),
                forall|x: Seq<char>| #[trigger] listed(neg@, x) <==> negative(chosen, x),
                (neg@.len() > 0) == has_negative(chosen),
                pred == (|r: Rule| runs_by_id(chosen, r)),
                derefs(res@) == keep(rules.subrange(0, i as int), pred),
            decreases self.rules.len() - i,
        {
            let r = &self.rules[i];
            let hit = match &r.id {
                Some(id) => is_listed(&pos, id.as_str()) || (neg.len() > 0 && !is_listed(&neg, id.as_str())),
                None => false,
            };
            proof {
                lemma_keep_step(rules, pred, i as int);
                assert(*r == rules[i as int]);
                assert(hit == pred(*r));
            }
            if hit {
                res.push(r);
                proof {
                    assert(derefs(res@) =~= keep(rules.subrange(0, i as int), pred).push(rules[i as int]));
                }
            }
            i = i + 1;
        }
        proof {
            assert(rules.subrange(0, rules.len() as int) =~= rules);
        }
        res
    }

    /// The rules that run: chosen by tags when tags are given, else by ids
    /// when ids are given, else all of them.
    pub fn filter_rules(&self, tags: Option<&Vec<String>>, ids: Option<&Vec<String>>) -> (res: Vec<&Rule>)
        ensures
            derefs(res@) == match (tags, ids) {
                (Some(t), _) => rules_by_tag(self.rules@, t@),
                (None, Some(d)) => rules_by_id(self.rules@, d@),
                (None, None) => self.rules@,
            },
    {
        if let Some(t) = tags {
            return self.filter_rules_by_tag(t);
        }
        if let Some(d) = ids {
            return self.filter_rules_by_id(d);
        }
        let mut res: Vec<&Rule> = Vec::new();
        let mut i: usize = 0;
        while i < self.rules.len()
            invariant
                i <= self.rules.len(),
                derefs(res@) == self.rules@.subrange(0, i as int),
            decreases self.rules.len() - i,
        {
            let r = &self.rules[i];
            assert(*r == self.rules@[i as int]);
            let ghost before = res@;
            res.push(r);
            proof {
                assert(derefs(res@) =~= derefs(before).push(*r));
                assert(derefs(res@) =~= self.rules@.subrange(0, i + 1));
            }
            i = i + 1;
        }
        proof {
            assert(self.rules@.subrange(0, self.rules@.len() as int) =~= self.rules@);
        }
        res
    }
}

/// `sub` is made of items of `s` in their order.
pub open spec fn is_subsequence(sub: Seq<Rule>, s: Seq<Rule>) -> bool {
    exists|pos: Seq<int>| #[trigger] pos.len() == sub.len()
        && (forall|k: int| 0 <= k < pos.len() ==> 0 <= #[trigger] pos[k] < s.len() && sub[k] == s[pos[k]])
        && (forall|a: int, b: int| 0 <= a < b < pos.len() ==> #[trigger] pos[a] < #[trigger] pos[b])
}

proof fn lemma_keep_subsequence(rules: Seq<Rule>, pred: spec_fn(Rule) -> bool) -> (pos: Seq<int>)
    ensures
        pos.len() == keep(rules, pred).len(),
        forall|k: int| 0 <= k < pos.len() ==> 0 <= #[trigger] pos[k] < rules.len() && keep(rules, pred)[k] == rules[pos[k]],
        forall|a: int, b: int| 0 <= a < b < pos.len() ==> #[trigger] pos[a] < #[trigger] pos[b],
    decreases rules.len(),
{
    if rules.len() == 0 {
        Seq::empty()
    } else {
        let p = lemma_keep_subsequence(rules.drop_last(), pred);
        assert forall|k: int| 0 <= k < p.len() implies rules.drop_last()[p[k]] == rules[p[k]] by {}
        if pred(rules.last()) {
            let q = p.push(rules.len() - 1);
            assert forall|k: int| 0 <= k < q.len() implies 0 <= #[trigger] q[k] < rules.len()
                && keep(rules, pred)[k] == rules[q[k]] by {
                if k < p.len() {
                    assert(q[k] == p[k]);
                    assert(rules.drop_last()[p[k]] == rules[p[k]]);
                }
            }
            q
        } else {
            assert forall|k: int| 0 <= k < p.len() implies 0 <= #[trigger] p[k] < rules.len()
                && keep(rules, pred)[k] == rules[p[k]] by {
                assert(rules.drop_last()[p[k]] == rules[p[k]]);
            }
            p
        }
    }
}

proof fn lemma_keep_contains(rules: Seq<Rule>, pred: spec_fn(Rule) -> bool, i: int)
    requires
        0 <= i < rules.len(),
        pred(rules[i]),
    ensures
        keep(rules, pred).contains(rules[i]),
    decreases rules.len(),
{
    if i == rules.len() - 1 {
        assert(keep(rules, pred).last() == rules.last());
    } else {
        assert(rules.drop_last()[i] == rules[i]);
        lemma_keep_contains(rules.drop_last(), pred, i);
        let k = keep(rules.drop_last(), pred);
        let j = choose|j: int| 0 <= j < k.len() && k[j] == rules[i];
        if pred(rules.last()) {
            assert(keep(rules, pred)[j] == k[j]);
        }
    }
}

/// The rules chosen by tags are rules of the configuration, in its order.
pub proof fn law_tags_keep_order(rules: Seq<Rule>, chosen: Seq<String>)
    ensures
        is_subsequence(rules_by_tag(rules, chosen), rules),
{
    if tags_known(rules, chosen) {
        let pos = lemma_keep_subsequence(rules, |r: Rule| runs_by_tag(rules, chosen, r));
        assert(pos.len() == rules_by_tag(rules, chosen).len());
    } else {
        let pos: Seq<int> = Seq::empty();
        assert(pos.len() == rules_by_tag(rules, chosen).len());
    }
}

/// The rules chosen by ids are rules of the configuration, in its order.
pub proof fn law_ids_keep_order(rules: Seq<Rule>, chosen: Seq<String>)
    ensures
        is_subsequence(rules_by_id(rules, chosen), rules),
{
    if ids_known(rules, chosen) {
        let pos = lemma_keep_subsequence(rules, |r: Rule| runs_by_id(chosen, r));
        assert(pos.len() == rules_by_id(rules, chosen).len());
    } else {
        let pos: Seq<int> = Seq::empty();
        assert(pos.len() == rules_by_id(rules, chosen).len());
    }
}

/// When every chosen tag is known, a rule that carries a tag chosen without
/// negation runs.
pub proof fn law_positive_tag_runs(rules: Seq<Rule>, chosen: Seq<String>, i: int, j: int)
    requires
        tags_known(rules, chosen),
        0 <= i < rules.len(),
        0 <= j < rules[i].tags@.len(),
        positive(chosen, rules[i].tags@[j]@),
    ensures
        rules_by_tag(rules, chosen).contains(rules[i]),
{
    let r = rules[i];
    let t = r.tags@[j]@;
    assert(hits_positive(chosen, r));
    assert(listed(r.tags@, t));
    assert(selected_tag(rules, chosen, t));
    assert(runs_by_tag(rules, chosen, r));
    lemma_keep_contains(rules, |x: Rule| runs_by_tag(rules, chosen, x), i);
}

/// When every chosen id is known, the rule whose id is chosen without
/// negation runs, and a rule whose id is negated does not.
pub proof fn law_chosen_id_runs(rules: Seq<Rule>, chosen: Seq<String>, i: int)
    requires
        ids_known(rules, chosen),
        0 <= i < rules.len(),
        rules[i].id is Some,
    ensures
        positive(chosen, rules[i].id->Some_0@) ==> rules_by_id(rules, chosen).contains(rules[i]),
        (negative(chosen, rules[i].id->Some_0@) && !positive(chosen, rules[i].id->Some_0@))
            ==> !rules_by_id(rules, chosen).contains(rules[i]),
{
    if positive(chosen, rules[i].id->Some_0@) {
        lemma_keep_contains(rules, |x: Rule| runs_by_id(chosen, x), i);
    }
    if negative(chosen, rules[i].id->Some_0@) && !positive(chosen, rules[i].id->Some_0@) {
        let pred = |x: Rule| runs_by_id(chosen, x);
        lemma_keep_subsequence(rules, pred);
        if rules_by_id(rules, chosen).contains(rules[i]) {
            let k = choose|k: int| 0 <= k < keep(rules, pred).len() && keep(rules, pred)[k] == rules[i];
            lemma_keep_all(rules, pred, k);
        }
    }
}

proof fn lemma_keep_all(rules: Seq<Rule>, pred: spec_fn(Rule) -> bool, k: int)
    requires
        0 <= k < keep(rules, pred).len(),
    ensures
        pred(keep(rules, pred)[k]),
    decreases rules.len(),
{
    if rules.len() > 0 {
        let p = keep(rules.drop_last(), pred);
        if k < p.len() {
            lemma_keep_all(rules.drop_last(), pred, k);
            if pred(rules.last()) {
                assert(keep(rules, pred)[k] == p[k]);
            }
        }
    }
}

/// The configuration that an entry of the working folder names, if any: a
/// folder whose stem ends in `organize` names the `config.toml` in it; a
/// file whose stem ends in `organize`, with the extension `toml`, names
/// itself.
pub open spec fn names_config(path: Seq<char>, is_dir: bool) -> Option<Seq<char>> {
    match spec_file_stem(path) {
        None => None,
        Some(stem) => if !ends_with(stem, "organize"@) {
            None
        } else if is_dir {
            Some(spec_join(path, "config.toml"@))
        } else if spec_extension(path) == Some("toml"@) {
            Some(path)
        } else {
            None
        },
    }
}

/// The configuration named by the first entry that names one.
pub open spec fn first_config(entries: Seq<(String, bool)>) -> Option<Seq<char>>
    decreases entries.len(),
{
    if entries.len() == 0 {
        None
    } else {
        match names_config(entries[0].0@, entries[0].1) {
            Some(p) => Some(p),
            None => first_config(entries.drop_first()),
        }
    }
}

/// The configuration that an entry of the working folder names: the entry
/// `(path, is_dir)` as `names_config` reads it.
pub fn config_named_by(path: &str, is_dir: bool) -> (r: Option<String>)
    ensures
        opt_chars(r) == names_config(path@, is_dir),
{
    proof {
        reveal_strlit("organize");
        reveal_strlit("config.toml");
        reveal_strlit("toml");
    }
    let stem = match file_stem(path) {
        None => return None,
        Some(s) => s,
    };
    let stem_chars = chars_of(stem.as_str());
    let suffix = chars_of("organize");
    if !vec_ends_with(&stem_chars, &suffix) {
        return None;
    }
    if is_dir {
        return Some(join(path, "config.toml"));
    }
    match extension(path) {
        Some(e) => if str_eq(e.as_str(), "toml") { Some(copy_str(path)) } else { None },
        None => None,
    }
}

/// The configuration found among the entries of the working folder, in the
/// order they are listed: the first one that an entry names.
pub fn find_config(entries: &Vec<(String, bool)>) -> (r: Option<String>)
    ensures
        opt_chars(r) == first_config(entries@),
{
    let mut i: usize = 0;
    assert(entries@.skip(0) =~= entries@);
    while i < entries.len()
        invariant
            i <= entries@.len(),
            first_config(entries@) == first_config(entries@.skip(i as int)),
        decreases entries@.len() - i,
    {
        assert(entries@.skip(i as int).drop_first() =~= entries@.skip(i + 1));
        assert(entries@.skip(i as int)[0] == entries@[i as int]);
        if let Some(p) = config_named_by(entries[i].0.as_str(), entries[i].1) {
            return Some(p);
        }
        i = i + 1;
    }
    None
}

/// Which folder becomes the working folder for a configuration at `path`.
#[derive(Debug, PartialEq, Eq)]
pub enum WorkingFolder {
    /// The home folder: the configuration is the default one.
    Home,
    /// The folder that holds the configuration.
    Parent(String),
}

/// The working folder for the configuration at `path`, given the default
/// configuration's path: the home folder for the default one, else the
/// folder that holds it; `None` when the path has no parent.
pub fn working_folder(path: &str, default_path: &str) -> (r: Option<WorkingFolder>)
    ensures
        spec_path_eq(path@, default_path@) ==> r == Some(WorkingFolder::Home),
        !spec_path_eq(path@, default_path@) ==> match spec_parent(path@) {
            None => r is None,
            Some(p) => r matches Some(WorkingFolder::Parent(q)) && q@ == p,
        },
{
    if path_eq(path, default_path) {
        Some(WorkingFolder::Home)
    } else {
        match parent(path) {
            None => None,
            Some(p) => Some(WorkingFolder::Parent(p)),
        }
    }
}

} // verus!
