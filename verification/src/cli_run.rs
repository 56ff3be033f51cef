//! Command-line settings.
//!
//! The option values are comma-separated lists. A variation-set list names
//! presets, `u(HEX)` or `k(HEX)` code points, or single characters; an
//! ignore list names the filters `git`, `evfmt` and `hidden`. `all` and
//! `none` stand alone, and `none` only with a `--set-*` option. The
//! operations apply from left to right, starting from `ascii` for both
//! policy sets and every ignore filter enabled.

use vstd::prelude::*;
use vstd::utf8::is_scalar;

use crate::charset::{named_members, universe, NamedSet};
use crate::cli_args::{OperationId, OrderedOperation};
use crate::expr::parser::{
    char_from_u32, hex_char, hex_digit_value, hex_number, lemma_hex_number_bound, skip_ws, text_of,
    trim_chars, trim_end, trimmed, white_space, without_selectors,
};
use crate::policy::Policy;
use crate::text::chars_of;
use crate::unicode::has_vs;
use crate::variation_set::{self, VariationSet};

verus! {

// --- Exit statuses ---

/// How a run of the command ends.
#[derive(Debug, Clone, Copy, PartialEq, Eq, Structural)]
pub enum ExitStatus {
    /// Everything was processed and nothing needed changing in check mode.
    Success,
    /// Check mode found input that formatting would change.
    CheckFoundChanges,
    /// A usage error or an I/O error occurred.
    UsageOrIoError,
}

impl ExitStatus {
    /// The process exit code: 0, 1 and 2 in the order of the variants.
    pub fn code(self) -> (r: i32)
        ensures
            r == match self {
                ExitStatus::Success => 0i32,
                ExitStatus::CheckFoundChanges => 1i32,
                ExitStatus::UsageOrIoError => 2i32,
            },
    {
        match self {
            ExitStatus::Success => 0,
            ExitStatus::CheckFoundChanges => 1,
            ExitStatus::UsageOrIoError => 2,
        }
    }
}

// --- Operations ---

/// How an operation changes its target setting.
#[derive(Debug, Clone, Copy, PartialEq, Eq, Structural)]
pub enum UpdateKind {
    /// Replace the setting.
    Replace,
    /// Add to the setting.
    Add,
    /// Remove from the setting.
    Remove,
}

/// The setting an operation changes, and how.
#[derive(Debug, Clone, Copy, PartialEq, Eq, Structural)]
pub enum RuntimeOperation {
    PreferBare(UpdateKind),
    BareAsText(UpdateKind),
    Ignore(UpdateKind),
}

impl OperationId {
    /// The target and update kind of this option.
    pub open spec fn runtime_spec(self) -> RuntimeOperation {
        match self {
            OperationId::SetPreferBare => RuntimeOperation::PreferBare(UpdateKind::Replace),
            OperationId::AddPreferBare => RuntimeOperation::PreferBare(UpdateKind::Add),
            OperationId::RemovePreferBare => RuntimeOperation::PreferBare(UpdateKind::Remove),
            OperationId::SetBareAsText => RuntimeOperation::BareAsText(UpdateKind::Replace),
            OperationId::AddBareAsText => RuntimeOperation::BareAsText(UpdateKind::Add),
            OperationId::RemoveBareAsText => RuntimeOperation::BareAsText(UpdateKind::Remove),
            OperationId::SetIgnore => RuntimeOperation::Ignore(UpdateKind::Replace),
            OperationId::AddIgnore => RuntimeOperation::Ignore(UpdateKind::Add),
            OperationId::RemoveIgnore => RuntimeOperation::Ignore(UpdateKind::Remove),
        }
    }

    /// The option's long name, with its leading dashes.
    pub open spec fn flag_text(self) -> Seq<char> {
        match self {
            OperationId::SetPreferBare => "--set-prefer-bare"@,
            OperationId::AddPreferBare => "--add-prefer-bare"@,
            OperationId::RemovePreferBare => "--remove-prefer-bare"@,
            OperationId::SetBareAsText => "--set-bare-as-text"@,
            OperationId::AddBareAsText => "--add-bare-as-text"@,
            OperationId::RemoveBareAsText => "--remove-bare-as-text"@,
            OperationId::SetIgnore => "--set-ignore"@,
            OperationId::AddIgnore => "--add-ignore"@,
            OperationId::RemoveIgnore => "--remove-ignore"@,
        }
    }

    /// The target and update kind of this option.
    pub fn runtime_operation(self) -> (r: RuntimeOperation)
        ensures
            r == self.runtime_spec(),
    {
        match self {
            OperationId::SetPreferBare => RuntimeOperation::PreferBare(UpdateKind::Replace),
            OperationId::AddPreferBare => RuntimeOperation::PreferBare(UpdateKind::Add),
            OperationId::RemovePreferBare => RuntimeOperation::PreferBare(UpdateKind::Remove),
            OperationId::SetBareAsText => RuntimeOperation::BareAsText(UpdateKind::Replace),
            OperationId::AddBareAsText => RuntimeOperation::BareAsText(UpdateKind::Add),
            OperationId::RemoveBareAsText => RuntimeOperation::BareAsText(UpdateKind::Remove),
            OperationId::SetIgnore => RuntimeOperation::Ignore(UpdateKind::Replace),
            OperationId::AddIgnore => RuntimeOperation::Ignore(UpdateKind::Add),
            OperationId::RemoveIgnore => RuntimeOperation::Ignore(UpdateKind::Remove),
        }
    }

    /// The option's long name, as error messages show it.
    pub fn flag_name(self) -> (r: &'static str)
        ensures
            r@ == self.flag_text(),
    {
        match self {
            OperationId::SetPreferBare => "--set-prefer-bare",
            OperationId::AddPreferBare => "--add-prefer-bare",
            OperationId::RemovePreferBare => "--remove-prefer-bare",
            OperationId::SetBareAsText => "--set-bare-as-text",
            OperationId::AddBareAsText => "--add-bare-as-text",
            OperationId::RemoveBareAsText => "--remove-bare-as-text",
            OperationId::SetIgnore => "--set-ignore",
            OperationId::AddIgnore => "--add-ignore",
            OperationId::RemoveIgnore => "--remove-ignore",
        }
    }
}

// --- Ignore filters ---

/// A directory-walk ignore filter.
#[derive(Debug, Clone, Copy, PartialEq, Eq, Structural)]
pub enum IgnoreLabel {
    /// `.gitignore`, the global git excludes and `.git/info/exclude`.
    Git,
    /// `.evfmtignore` files.
    Evfmt,
    /// Hidden files and directories.
    Hidden,
}

/// Which ignore filters are enabled.
#[derive(Debug, Clone, Copy, PartialEq, Eq, Structural)]
pub struct IgnoreSettings {
    pub git: bool,
    pub evfmt: bool,
    pub hidden: bool,
}

/// Whether `labels` holds `label`.
pub open spec fn names(labels: Seq<IgnoreLabel>, label: IgnoreLabel) -> bool {
    exists|k: int| 0 <= k < labels.len() && #[trigger] labels[k] == label
}

impl Default for IgnoreSettings {
    /// Every filter enabled.
    fn default() -> (r: IgnoreSettings)
        ensures
            r == (IgnoreSettings { git: true, evfmt: true, hidden: true }),
    {
        IgnoreSettings { git: true, evfmt: true, hidden: true }
    }
}

impl IgnoreSettings {
    /// Exactly the filters in `labels` enabled.
    pub fn from_labels(labels: &[IgnoreLabel]) -> (r: IgnoreSettings)
        ensures
            r.git == names(labels@, IgnoreLabel::Git),
            r.evfmt == names(labels@, IgnoreLabel::Evfmt),
            r.hidden == names(labels@, IgnoreLabel::Hidden),
    {
        let mut settings = IgnoreSettings { git: false, evfmt: false, hidden: false };
        settings.enable(labels);
        settings
    }

    /// Enables the filters in `labels`, keeping the others as they were.
    pub fn enable(&mut self, labels: &[IgnoreLabel])
        ensures
            final(self).git == (old(self).git || names(labels@, IgnoreLabel::Git)),
            final(self).evfmt == (old(self).evfmt || names(labels@, IgnoreLabel::Evfmt)),
            final(self).hidden == (old(self).hidden || names(labels@, IgnoreLabel::Hidden)),
    {
        let ghost start = *self;
        let mut k: usize = 0;
        while k < labels.len()
            invariant
                k <= labels.len(),
                self.git == (start.git || names(labels@.take(k as int), IgnoreLabel::Git)),
                self.evfmt == (start.evfmt || names(labels@.take(k as int), IgnoreLabel::Evfmt)),
                self.hidden == (start.hidden || names(labels@.take(k as int), IgnoreLabel::Hidden)),
            decreases labels.len() - k,
        {
            proof {
                lemma_names_step(labels@, k as int);
            }
            match labels[k] {
                IgnoreLabel::Git => self.git = true,
                IgnoreLabel::Evfmt => self.evfmt = true,
                IgnoreLabel::Hidden => self.hidden = true,
            }
            k = k + 1;
        }
        proof {
            assert(labels@.take(k as int) =~= labels@);
        }
    }

    /// Disables the filters in `labels`, keeping the others as they were.
    pub fn disable(&mut self, labels: &[IgnoreLabel])
        ensures
            final(self).git == (old(self).git && !names(labels@, IgnoreLabel::Git)),
            final(self).evfmt == (old(self).evfmt && !names(labels@, IgnoreLabel::Evfmt)),
            final(self).hidden == (old(self).hidden && !names(labels@, IgnoreLabel::Hidden)),
    {
        let ghost start = *self;
        let mut k: usize = 0;
        while k < labels.len()
            invariant
                k <= labels.len(),
                self.git == (start.git && !names(labels@.take(k as int), IgnoreLabel::Git)),
                self.evfmt == (start.evfmt && !names(labels@.take(k as int), IgnoreLabel::Evfmt)),
                self.hidden == (start.hidden && !names(labels@.take(k as int), IgnoreLabel::Hidden)),
            decreases labels.len() - k,
        {
            proof {
                lemma_names_step(labels@, k as int);
            }
            match labels[k] {
                IgnoreLabel::Git => self.git = false,
                IgnoreLabel::Evfmt => self.evfmt = false,
                IgnoreLabel::Hidden => self.hidden = false,
            }
            k = k + 1;
        }
        proof {
            assert(labels@.take(k as int) =~= labels@);
        }
    }
}

proof fn lemma_names_step(labels: Seq<IgnoreLabel>, k: int)
    requires
        0 <= k < labels.len(),
    ensures
        forall|l: IgnoreLabel|
            #[trigger] names(labels.take(k + 1), l) == (names(labels.take(k), l) || labels[k] == l),
{
    assert forall|l: IgnoreLabel|
        #[trigger] names(labels.take(k + 1), l) == (names(labels.take(k), l) || labels[k] == l) by {
        if names(labels.take(k + 1), l) {
            let j = choose|j: int| 0 <= j < k + 1 && #[trigger] labels.take(k + 1)[j] == l;
            if j < k {
                assert(labels.take(k)[j] == l);
            }
        }
        if names(labels.take(k), l) {
            let j = choose|j: int| 0 <= j < k && #[trigger] labels.take(k)[j] == l;
            assert(labels.take(k + 1)[j] == l);
        }
        if labels[k] == l {
            assert(labels.take(k + 1)[k] == l);
        }
    }
}

// --- Errors ---

/// A malformed option value, with the message shown for it.
#[derive(Debug)]
pub struct CliParseError {
    pub message: String,
}

impl CliParseError {
    /// The message.
    pub fn to_string(&self) -> (r: String)
        ensures
            r@ == self.message@,
    {
        self.message.clone()
    }
}

/// An error with literal message `m`.
fn parse_error(m: &str) -> (r: CliParseError)
    ensures
        r.message@ == m@,
{
    CliParseError { message: String::from_str(m) }
}

// --- Lists ---

/// The character views of a sequence of character vectors.
pub open spec fn char_rows(v: Seq<Vec<char>>) -> Seq<Seq<char>> {
    v.map_values(|x: Vec<char>| x@)
}

/// The pieces of `s` between commas, as `str::split(',')` cuts them:
/// one more piece than there are commas, empty pieces included.
pub open spec fn split_commas(s: Seq<char>) -> Seq<Seq<char>>
    decreases s.len(),
{
    if s.len() == 0 {
        seq![Seq::<char>::empty()]
    } else {
        let rest = split_commas(s.drop_last());
        if s.last() == ',' {
            rest.push(Seq::<char>::empty())
        } else {
            rest.update(rest.len() - 1, rest.last().push(s.last()))
        }
    }
}

/// The trimmed items of a comma-separated list, or the message for a blank
/// list or a blank item.
pub open spec fn list_items(s: Seq<char>) -> Result<Seq<Seq<char>>, Seq<char>> {
    if trimmed(s).len() == 0 {
        Err("empty list"@)
    } else {
        let items = split_commas(s).map_values(|p: Seq<char>| trimmed(p));
        if exists|k: int| 0 <= k < items.len() && (#[trigger] items[k]).len() == 0 {
            Err("empty list item"@)
        } else {
            Ok(items)
        }
    }
}

proof fn lemma_split_commas_len(s: Seq<char>)
    ensures
        split_commas(s).len() >= 1,
    decreases s.len(),
{
    if s.len() > 0 {
        lemma_split_commas_len(s.drop_last());
    }
}

/// Splits `input` into its trimmed items, as [`list_items`] states.
fn split_list_items(input: &str) -> (r: Result<Vec<Vec<char>>, CliParseError>)
    ensures
        match list_items(input@) {
            Ok(items) => r matches Ok(v) && char_rows(v@) == items,
            Err(m) => r matches Err(e) && e.message@ == m,
        },
{
    let t = chars_of(input);
    let whole = trim_chars(&t);
    if whole.len() == 0 {
        return Err(parse_error("empty list"));
    }
    let mut pieces: Vec<Vec<char>> = Vec::new();
    let mut cur: Vec<char> = Vec::new();
    let mut k: usize = 0;
    proof {
        assert(t@.take(0) =~= Seq::<char>::empty());
        assert(char_rows(pieces@).push(cur@) =~= seq![Seq::<char>::empty()]);
    }
    while k < t.len()
        invariant
            k <= t.len(),
            char_rows(pieces@).push(cur@) == split_commas(t@.take(k as int)),
        decreases t.len() - k,
    {
        let ghost before = char_rows(pieces@).push(cur@);
        proof {
            assert(t@.take(k + 1).drop_last() =~= t@.take(k as int));
            lemma_split_commas_len(t@.take(k as int));
        }
        if t[k] == ',' {
            pieces.push(cur);
            cur = Vec::new();
            proof {
                assert(char_rows(pieces@).push(cur@) =~= before.push(Seq::<char>::empty()));
            }
        } else {
            let ghost old_cur = cur@;
            cur.push(t[k]);
            proof {
                assert(char_rows(pieces@).push(cur@) =~= before.update(
                    before.len() - 1,
                    before.last().push(t@[k as int]),
                ));
            }
        }
        k = k + 1;
    }
    pieces.push(cur);
    proof {
        assert(t@.take(k as int) =~= t@);
    }
    let ghost all = split_commas(t@).map_values(|p: Seq<char>| trimmed(p));
    let mut items: Vec<Vec<char>> = Vec::new();
    let mut i: usize = 0;
    while i < pieces.len()
        invariant
            i <= pieces.len(),
            t@ == input@,
            whole@ == trimmed(input@),
            whole@.len() > 0,
            char_rows(pieces@) == split_commas(t@),
            all == split_commas(t@).map_values(|p: Seq<char>| trimmed(p)),
            char_rows(items@) == all.take(i as int),
            forall|q: int| 0 <= q < i ==> (#[trigger] all[q]).len() > 0,
        decreases pieces.len() - i,
    {
        let item = trim_chars(&pieces[i]);
        proof {
            assert(char_rows(pieces@)[i as int] == pieces@[i as int]@);
            assert(all[i as int] == trimmed(split_commas(t@)[i as int]));
            assert(item@ == all[i as int]);
        }
        if item.len() == 0 {
            proof {
                assert(all[i as int].len() == 0);
                assert(t@ == input@);
                assert(whole@ == trimmed(input@));
                assert(split_commas(input@).map_values(|p: Seq<char>| trimmed(p))[i as int].len() == 0);
            }
            return Err(parse_error("empty list item"));
        }
        let ghost before = items@;
        items.push(item);
        i = i + 1;
        proof {
            assert(char_rows(items@) =~= char_rows(before).push(item@));
            assert(char_rows(items@) =~= all.take(i as int));
        }
    }
    proof {
        assert(all.take(i as int) =~= all);
        assert(t@ == input@);
        assert(whole@ == trimmed(input@));
        assert(!(exists|k: int| 0 <= k < all.len() && (#[trigger] all[k]).len() == 0));
    }
    Ok(items)
}

/// Whether `v` holds exactly the characters of `s`.
fn same_text(v: &Vec<char>, s: &str) -> (r: bool)
    ensures
        r == (v@ == s@),
{
    let w = chars_of(s);
    if v.len() != w.len() {
        return false;
    }
    let mut k: usize = 0;
    while k < v.len()
        invariant
            k <= v.len() == w.len(),
            w@ == s@,
            forall|q: int| 0 <= q < k ==> v@[q] == w@[q],
        decreases v.len() - k,
    {
        if v[k] != w[k] {
            return false;
        }
        k = k + 1;
    }
    proof {
        assert(v@ =~= w@);
    }
    true
}

// --- Suggestions ---

/// The smallest of three integers.
pub open spec fn min3(x: int, y: int, z: int) -> int {
    if x <= y && x <= z {
        x
    } else if y <= z {
        y
    } else {
        z
    }
}

/// The Levenshtein distance: the fewest single-character insertions,
/// deletions and substitutions that turn `a` into `b` (a swap of two
/// neighbours counts as two).
pub open spec fn levenshtein(a: Seq<char>, b: Seq<char>) -> nat
    decreases a.len(), b.len(),
{
    if a.len() == 0 {
        b.len()
    } else if b.len() == 0 {
        a.len()
    } else {
        min3(
            levenshtein(a.drop_last(), b) + 1int,
            levenshtein(a, b.drop_last()) + 1int,
            levenshtein(a.drop_last(), b.drop_last()) + if a.last() == b.last() {
                0int
            } else {
                1int
            },
        ) as nat
    }
}

proof fn lemma_levenshtein_bound(a: Seq<char>, b: Seq<char>)
    ensures
        levenshtein(a, b) <= a.len() || levenshtein(a, b) <= b.len(),
        levenshtein(a, b) <= (if a.len() <= b.len() { b.len() } else { a.len() }),
    decreases a.len(), b.len(),
{
    if a.len() > 0 && b.len() > 0 {
        lemma_levenshtein_bound(a.drop_last(), b.drop_last());
    }
}

/// The distance between the characters of `a` and of `b`.
fn distance_chars(a: &Vec<char>, b: &Vec<char>) -> (r: usize)
    ensures
        r == levenshtein(a@, b@),
{
    let m = a.len();
    let n = b.len();
    let mut prev: Vec<usize> = Vec::new();
    let mut j: usize = 0;
    while j < n
        invariant
            j <= n == b.len(),
            prev.len() == j,
            forall|q: int| 0 <= q < j ==> prev@[q] == q + 1,
        decreases n - j,
    {
        prev.push(j + 1);
        j = j + 1;
    }
    proof {
        assert forall|q: int| 0 <= q < n implies prev@[q] == levenshtein(
            a@.take(0),
            #[trigger] b@.take(q + 1),
        ) by {
            assert(a@.take(0).len() == 0);
        }
    }
    let mut i: usize = 0;
    while i < m
        invariant
            i <= m == a.len(),
            n == b.len(),
            prev.len() == n,
            forall|q: int| 0 <= q < n ==> prev@[q] == levenshtein(a@.take(i as int), #[trigger] b@.take(q + 1)),
        decreases m - i,
    {
        let mut curr: Vec<usize> = Vec::new();
        let mut diag: usize = i;
        let mut left: usize = i + 1;
        let mut j: usize = 0;
        proof {
            assert(b@.take(0).len() == 0);
            assert(a@.take(i as int).len() == i);
            assert(a@.take(i + 1).len() == i + 1);
        }
        while j < n
            invariant
                i < m == a.len(),
                j <= n == b.len(),
                prev.len() == n,
                forall|q: int| 0 <= q < n ==> prev@[q] == levenshtein(a@.take(i as int), #[trigger] b@.take(q + 1)),
                curr.len() == j,
                forall|q: int| 0 <= q < j ==> curr@[q] == levenshtein(a@.take(i + 1), #[trigger] b@.take(q + 1)),
                diag == levenshtein(a@.take(i as int), b@.take(j as int)),
                left == levenshtein(a@.take(i + 1), b@.take(j as int)),
            decreases n - j,
        {
            let ghost x = a@.take(i + 1);
            let ghost y = b@.take(j + 1);
            proof {
                assert(x.drop_last() =~= a@.take(i as int));
                assert(y.drop_last() =~= b@.take(j as int));
                lemma_levenshtein_bound(a@.take(i as int), b@.take(j as int));
                lemma_levenshtein_bound(x, y);
            }
            let cost: usize = if a[i] == b[j] {
                0
            } else {
                1
            };
            let up = prev[j];
            let mut v = up.saturating_add(1);
            let l1 = left.saturating_add(1);
            if l1 < v {
                v = l1;
            }
            let d = diag + cost;
            if d < v {
                v = d;
            }
            proof {
                assert(levenshtein(x, y) == min3(
                    levenshtein(x.drop_last(), y) + 1int,
                    levenshtein(x, y.drop_last()) + 1int,
                    levenshtein(x.drop_last(), y.drop_last()) + if x.last() == y.last() {
                        0int
                    } else {
                        1int
                    },
                ));
            }
            curr.push(v);
            diag = up;
            left = v;
            j = j + 1;
        }
        prev = curr;
        i = i + 1;
    }
    proof {
        assert(a@.take(m as int) =~= a@);
        if n > 0 {
            assert(b@.take(n as int) =~= b@);
            assert(prev@[n - 1] == levenshtein(a@.take(m as int), b@.take((n - 1) + 1)));
        }
    }
    if n == 0 {
        m
    } else {
        prev[n - 1]
    }
}

/// The edit distance between `left` and `right`.
pub fn edit_distance(left: &str, right: &str) -> (r: usize)
    ensures
        r == levenshtein(left@, right@),
{
    let a = chars_of(left);
    let b = chars_of(right);
    distance_chars(&a, &b)
}

/// The position of the first smallest entry of `d`.
pub open spec fn first_min(d: Seq<nat>) -> int
    decreases d.len(),
{
    if d.len() <= 1 {
        0
    } else {
        let k = first_min(d.drop_last());
        if d.last() < d[k] {
            d.len() - 1
        } else {
            k
        }
    }
}

proof fn lemma_first_min(d: Seq<nat>)
    requires
        d.len() >= 1,
    ensures
        0 <= first_min(d) < d.len(),
    decreases d.len(),
{
    if d.len() > 1 {
        lemma_first_min(d.drop_last());
    }
}

/// The character views of string slices.
pub open spec fn str_views(v: Seq<&str>) -> Seq<Seq<char>> {
    v.map_values(|s: &str| s@)
}

/// The position of the choice to suggest for `input`: the first choice at
/// the smallest distance, when that distance is at most 3.
pub open spec fn suggestion(input: Seq<char>, choices: Seq<Seq<char>>) -> Option<int> {
    if choices.len() == 0 {
        None
    } else {
        let d = choices.map_values(|c: Seq<char>| levenshtein(input, c));
        let k = first_min(d);
        if d[k] <= 3 {
            Some(k)
        } else {
            None
        }
    }
}

/// The choice [`suggestion`] picks for the characters of `input`.
fn suggest_chars<'a>(input: &Vec<char>, choices: &'a [&str]) -> (r: Option<&'a str>)
    ensures
        r == match suggestion(input@, str_views(choices@)) {
            Some(k) => Some(choices@[k]),
            None => None::<&str>,
        },
{
    let ghost cs = str_views(choices@);
    let ghost d = cs.map_values(|c: Seq<char>| levenshtein(input@, c));
    if choices.len() == 0 {
        return None;
    }
    let first = chars_of(choices[0]);
    let mut best: usize = 0;
    let mut best_distance = distance_chars(input, &first);
    let mut k: usize = 1;
    proof {
        assert(d.take(1).len() == 1);
        assert(first_min(d.take(1)) == 0);
    }
    while k < choices.len()
        invariant
            1 <= k <= choices.len(),
            cs == str_views(choices@),
            d == cs.map_values(|c: Seq<char>| levenshtein(input@, c)),
            best == first_min(d.take(k as int)),
            best < k,
            best_distance == d[best as int],
        decreases choices.len() - k,
    {
        let c = chars_of(choices[k]);
        let dist = distance_chars(input, &c);
        proof {
            assert(d.take(k + 1).drop_last() =~= d.take(k as int));
            assert(d.take(k as int)[best as int] == d[best as int]);
        }
        if dist < best_distance {
            best = k;
            best_distance = dist;
        }
        k = k + 1;
    }
    proof {
        assert(d.take(k as int) =~= d);
        lemma_first_min(d);
    }
    if best_distance <= 3 {
        Some(choices[best])
    } else {
        None
    }
}

/// The name to suggest for a mistyped `input`: the first of `choices` at
/// the smallest edit distance, if that distance is at most 3.
pub fn suggest_name<'a>(input: &str, choices: &'a [&str]) -> (r: Option<&'a str>)
    ensures
        r == match suggestion(input@, str_views(choices@)) {
            Some(k) => Some(choices@[k]),
            None => None::<&str>,
        },
{
    let v = chars_of(input);
    suggest_chars(&v, choices)
}

/// The message tail that suggests `name`, or nothing.
pub open spec fn suggestion_tail(input: Seq<char>, choices: Seq<Seq<char>>) -> Seq<char> {
    match suggestion(input, choices) {
        Some(k) => "; did you mean `"@ + choices[k] + "`?"@,
        None => Seq::empty(),
    }
}

/// Appends the suggestion tail for `input` to `message`.
fn push_suggestion(message: &mut String, input: &Vec<char>, choices: &[&str])
    ensures
        final(message)@ == old(message)@ + suggestion_tail(input@, str_views(choices@)),
{
    match suggest_chars(input, choices) {
        Some(name) => {
            let ghost k = suggestion(input@, str_views(choices@))->0;
            let ghost start = message@;
            proof {
                lemma_first_min(str_views(choices@).map_values(|c: Seq<char>| levenshtein(input@, c)));
                assert(str_views(choices@)[k] == choices@[k]@);
            }
            message.append("; did you mean `");
            message.append(name);
            message.append("`?");
            proof {
                assert(message@ =~= start + ("; did you mean `"@ + str_views(choices@)[k] + "`?"@));
            }
        },
        None => {
            assert(old(message)@ + Seq::<char>::empty() =~= old(message)@);
        },
    }
}

// --- Variation-set lists ---

/// The variation-set preset names, in the order suggestions prefer them.
pub open spec fn preset_names() -> Seq<Seq<char>> {
    seq![
        "ascii"@,
        "text-defaults"@,
        "emoji-defaults"@,
        "rights-marks"@,
        "arrows"@,
        "card-suits"@,
        "keycap-chars"@,
        "non-keycap-chars"@,
        "keycap-emojis"@,
    ]
}

/// The variation-set preset names.
pub fn named_set_names() -> (r: [&'static str; 9])
    ensures
        str_views(r@) == preset_names(),
{
    let r = [
        "ascii",
        "text-defaults",
        "emoji-defaults",
        "rights-marks",
        "arrows",
        "card-suits",
        "keycap-chars",
        "non-keycap-chars",
        "keycap-emojis",
    ];
    proof {
        assert(str_views(r@) =~= preset_names());
    }
    r
}

/// The ordinary and keycap positions a preset names.
pub open spec fn preset(name: Seq<char>) -> Option<(Set<char>, Set<char>)> {
    if name == "ascii"@ {
        Some((named_members(NamedSet::Ascii), Set::empty()))
    } else if name == "text-defaults"@ {
        Some((named_members(NamedSet::TextDefaults), Set::empty()))
    } else if name == "emoji-defaults"@ {
        Some((named_members(NamedSet::EmojiDefaults), Set::empty()))
    } else if name == "rights-marks"@ {
        Some((named_members(NamedSet::RightsMarks), Set::empty()))
    } else if name == "arrows"@ {
        Some((named_members(NamedSet::Arrows), Set::empty()))
    } else if name == "card-suits"@ {
        Some((named_members(NamedSet::CardSuits), Set::empty()))
    } else if name == "keycap-chars"@ {
        Some((Set::empty(), universe()))
    } else if name == "non-keycap-chars"@ {
        Some((universe(), Set::empty()))
    } else if name == "keycap-emojis"@ {
        Some((Set::empty(), named_members(NamedSet::KeycapEmojis)))
    } else {
        None
    }
}

/// The one-position set for `c`, or the message for a character without
/// variation sequences.
pub open spec fn singleton_outcome(item: Seq<char>, c: char, keycap: bool) -> Result<
    (Set<char>, Set<char>),
    Seq<char>,
> {
    if !has_vs(c) {
        Err("character `"@ + item + "` is not eligible for emoji variation selectors"@)
    } else if keycap {
        Ok((Set::empty(), set![c]))
    } else {
        Ok((set![c], Set::empty()))
    }
}

/// The outcome of a `u(HEX)` or `k(HEX)` item: 4 to 6 hexadecimal digits
/// naming a Unicode scalar value, closed by `)`.
pub open spec fn code_point_outcome(item: Seq<char>, keycap: bool) -> Result<
    (Set<char>, Set<char>),
    Seq<char>,
> {
    let hex = item.subrange(2, item.len() - 1);
    if item.len() < 3 || item.last() != ')' || hex.len() < 4 || hex.len() > 6 || (exists|k: int|
        0 <= k < hex.len() && !hex_char(#[trigger] hex[k])) || !is_scalar(hex_number(hex) as u32) {
        Err("invalid code point item `"@ + item + "`"@)
    } else {
        singleton_outcome(item, (hex_number(hex) as u32) as char, keycap)
    }
}

/// Whether `c` may stand in a preset name.
pub open spec fn ident_char(c: char) -> bool {
    ('a' <= c && c <= 'z') || ('A' <= c && c <= 'Z') || ('0' <= c && c <= '9') || c == '-' || c
        == '_'
}

/// Whether `s` looks like a preset name.
pub open spec fn identifier_like(s: Seq<char>) -> bool {
    forall|k: int| 0 <= k < s.len() ==> ident_char(#[trigger] s[k])
}

/// The positions one list item names, or its message.
pub open spec fn variation_item(item: Seq<char>) -> Result<(Set<char>, Set<char>), Seq<char>> {
    match preset(item) {
        Some(sets) => Ok(sets),
        None => if item.len() >= 2 && item[0] == 'u' && item[1] == '(' {
            code_point_outcome(item, false)
        } else if item.len() >= 2 && item[0] == 'k' && item[1] == '(' {
            code_point_outcome(item, true)
        } else if without_selectors(item).len() == 1 {
            singleton_outcome(item, without_selectors(item)[0], false)
        } else if identifier_like(item) {
            Err(
                "unknown variation set preset `"@ + item + "`"@ + suggestion_tail(
                    item,
                    preset_names(),
                ),
            )
        } else {
            Err("invalid variation set item `"@ + item + "`"@)
        },
    }
}

/// The union of the items' positions, or the message of the first bad
/// item.
pub open spec fn union_items(items: Seq<Seq<char>>) -> Result<(Set<char>, Set<char>), Seq<char>>
    decreases items.len(),
{
    if items.len() == 0 {
        Ok((Set::empty(), Set::empty()))
    } else {
        match union_items(items.drop_last()) {
            Err(m) => Err(m),
            Ok((o, k)) => match variation_item(items.last()) {
                Err(m) => Err(m),
                Ok((o2, k2)) => Ok((o.union(o2), k.union(k2))),
            },
        }
    }
}

/// The ordinary and keycap positions a variation-set list names, or its
/// message.
pub open spec fn variation_list(kind: UpdateKind, s: Seq<char>) -> Result<
    (Set<char>, Set<char>),
    Seq<char>,
> {
    match list_items(s) {
        Err(m) => Err(m),
        Ok(items) => if items.len() == 1 && items[0] == "all"@ {
            Ok((universe(), universe()))
        } else if items.len() == 1 && items[0] == "none"@ {
            if kind == UpdateKind::Replace {
                Ok((Set::empty(), Set::empty()))
            } else {
                Err("`none` is only allowed with `--set-*`"@)
            }
        } else if exists|k: int|
            0 <= k < items.len() && (#[trigger] items[k] == "all"@ || items[k] == "none"@) {
            Err("`all` and `none` must appear alone"@)
        } else {
            union_items(items)
        },
    }
}

/// Whether `r` is the variation set, or the error, that `m` describes.
pub open spec fn set_outcome(
    r: Result<VariationSet, CliParseError>,
    m: Result<(Set<char>, Set<char>), Seq<char>>,
) -> bool {
    match m {
        Ok((o, k)) => r matches Ok(v) && v.ordinary() == o && v.keycap() == k,
        Err(msg) => r matches Err(e) && e.message@ == msg,
    }
}

/// The error whose message is `prefix`, the item, and `suffix`.
fn item_error(prefix: &str, item: &Vec<char>, suffix: &str) -> (r: CliParseError)
    ensures
        r.message@ == prefix@ + item@ + suffix@,
{
    let mut message = String::from_str(prefix);
    let text = text_of(item, 0, item.len());
    proof {
        assert(item@.subrange(0, item.len() as int) =~= item@);
    }
    message.append(text.as_str());
    message.append(suffix);
    CliParseError { message }
}

fn parse_preset(item: &Vec<char>) -> (r: Option<VariationSet>)
    ensures
        match preset(item@) {
            Some((o, k)) => r matches Some(v) && v.ordinary() == o && v.keycap() == k,
            None => r is None,
        },
{
    if same_text(item, "ascii") {
        Some(variation_set::ascii())
    } else if same_text(item, "text-defaults") {
        Some(variation_set::text_defaults())
    } else if same_text(item, "emoji-defaults") {
        Some(variation_set::emoji_defaults())
    } else if same_text(item, "rights-marks") {
        Some(variation_set::rights_marks())
    } else if same_text(item, "arrows") {
        Some(variation_set::arrows())
    } else if same_text(item, "card-suits") {
        Some(variation_set::card_suits())
    } else if same_text(item, "keycap-chars") {
        Some(variation_set::keycap_chars())
    } else if same_text(item, "non-keycap-chars") {
        Some(variation_set::non_keycap_chars())
    } else if same_text(item, "keycap-emojis") {
        Some(variation_set::keycap_emojis())
    } else {
        None
    }
}

fn singleton_item(item: &Vec<char>, c: char, keycap: bool) -> (r: Result<VariationSet, CliParseError>)
    ensures
        set_outcome(r, singleton_outcome(item@, c, keycap)),
{
    if !variation_set::is_variation_sequence_character(c) {
        return Err(
            item_error("character `", item, "` is not eligible for emoji variation selectors"),
        );
    }
    if keycap {
        Ok(VariationSet::singleton_keycap(c))
    } else {
        Ok(VariationSet::singleton(c))
    }
}

fn code_point_item(item: &Vec<char>, keycap: bool) -> (r: Result<VariationSet, CliParseError>)
    requires
        item.len() >= 2,
    ensures
        set_outcome(r, code_point_outcome(item@, keycap)),
{
    let n = item.len();
    let ghost hex = item@.subrange(2, n - 1);
    if n < 3 || item[n - 1] != ')' || n - 3 < 4 || n - 3 > 6 {
        return Err(item_error("invalid code point item `", item, "`"));
    }
    let mut value: u32 = 0;
    let mut m: usize = 2;
    proof {
        assert(item@.subrange(2, 2) =~= Seq::<char>::empty());
    }
    while m < n - 1
        invariant
            n == item.len(),
            3 <= n,
            4 <= n - 3 <= 6,
            2 <= m <= n - 1,
            hex == item@.subrange(2, n - 1),
            forall|q: int| 2 <= q < m ==> hex_char(#[trigger] item@[q]),
            value == hex_number(item@.subrange(2, m as int)),
        decreases n - 1 - m,
    {
        let c = item[m];
        if !(('0' <= c && c <= '9') || ('a' <= c && c <= 'f') || ('A' <= c && c <= 'F')) {
            proof {
                assert(!hex_char(hex[m - 2]));
            }
            return Err(item_error("invalid code point item `", item, "`"));
        }
        proof {
            let next = item@.subrange(2, m + 1);
            assert(next.drop_last() =~= item@.subrange(2, m as int));
            assert(forall|q: int| 0 <= q < next.len() ==> hex_char(#[trigger] next[q])) by {
                assert(forall|q: int| 0 <= q < next.len() ==> next[q] == item@[q + 2]);
            }
            lemma_hex_number_bound(next);
            vstd::arithmetic::power::lemma_pow_increases(16, next.len(), 6);
            assert(vstd::arithmetic::power::pow(16, 6) == 16777216) by {
                vstd::arithmetic::power::lemma_pow_positive(16, 6);
                reveal_with_fuel(vstd::arithmetic::power::pow, 7);
            }
        }
        value = value * 16 + hex_digit_value(c);
        m = m + 1;
    }
    proof {
        assert(item@.subrange(2, m as int) =~= hex);
        assert(forall|k: int| 0 <= k < hex.len() ==> hex_char(#[trigger] hex[k])) by {
            assert(forall|k: int| 0 <= k < hex.len() ==> hex[k] == item@[k + 2]);
        }
    }
    match char_from_u32(value) {
        Some(c) => singleton_item(item, c, keycap),
        None => Err(item_error("invalid code point item `", item, "`")),
    }
}

/// The characters of `item` that are not presentation selectors.
fn non_selectors(item: &Vec<char>) -> (r: Vec<char>)
    ensures
        r@ == without_selectors(item@),
{
    let mut kept: Vec<char> = Vec::new();
    let mut k: usize = 0;
    proof {
        assert(item@.take(0) =~= Seq::<char>::empty());
    }
    while k < item.len()
        invariant
            k <= item.len(),
            kept@ == without_selectors(item@.take(k as int)),
        decreases item.len() - k,
    {
        proof {
            assert(item@.take(k + 1).drop_last() =~= item@.take(k as int));
        }
        let c = item[k];
        if c != '\u{FE0E}' && c != '\u{FE0F}' {
            kept.push(c);
        }
        k = k + 1;
    }
    proof {
        assert(item@.take(k as int) =~= item@);
    }
    kept
}

fn is_identifier_like(item: &Vec<char>) -> (r: bool)
    ensures
        r == identifier_like(item@),
{
    let mut k: usize = 0;
    while k < item.len()
        invariant
            k <= item.len(),
            forall|q: int| 0 <= q < k ==> ident_char(#[trigger] item@[q]),
        decreases item.len() - k,
    {
        let c = item[k];
        if !(('a' <= c && c <= 'z') || ('A' <= c && c <= 'Z') || ('0' <= c && c <= '9') || c == '-'
            || c == '_') {
            return false;
        }
        k = k + 1;
    }
    true
}

/// The positions one list item names, as [`variation_item`] states.
fn parse_variation_item(item: &Vec<char>) -> (r: Result<VariationSet, CliParseError>)
    ensures
        set_outcome(r, variation_item(item@)),
{
    match parse_preset(item) {
        Some(sets) => {
            return Ok(sets);
        },
        None => {},
    }
    if item.len() >= 2 && item[0] == 'u' && item[1] == '(' {
        return code_point_item(item, false);
    }
    if item.len() >= 2 && item[0] == 'k' && item[1] == '(' {
        return code_point_item(item, true);
    }
    let kept = non_selectors(item);
    if kept.len() == 1 {
        return singleton_item(item, kept[0], false);
    }
    if is_identifier_like(item) {
        let mut message = item_error("unknown variation set preset `", item, "`").message;
        let names = named_set_names();
        push_suggestion(&mut message, item, &names);
        return Err(CliParseError { message });
    }
    Err(item_error("invalid variation set item `", item, "`"))
}

/// Parses a variation-set list for an operation of kind `kind`, as
/// [`variation_list`] states.
pub fn parse_variation_set_list(kind: UpdateKind, input: &str) -> (r: Result<
    VariationSet,
    CliParseError,
>)
    ensures
        set_outcome(r, variation_list(kind, input@)),
{
    let items = match split_list_items(input) {
        Ok(items) => items,
        Err(e) => {
            return Err(e);
        },
    };
    let ghost rows = char_rows(items@);
    proof {
        assert(rows.len() == items.len());
        assert(forall|k: int| 0 <= k < items.len() ==> #[trigger] rows[k] == items@[k]@);
    }
    if items.len() == 1 {
        if same_text(&items[0], "all") {
            return Ok(VariationSet::all());
        }
        if same_text(&items[0], "none") {
            if kind == UpdateKind::Replace {
                return Ok(VariationSet::none());
            }
            return Err(parse_error("`none` is only allowed with `--set-*`"));
        }
    }
    let mut k: usize = 0;
    while k < items.len()
        invariant
            k <= items.len(),
            rows == char_rows(items@),
            list_items(input@) == Ok::<Seq<Seq<char>>, Seq<char>>(rows),
            !(rows.len() == 1 && (rows[0] == "all"@ || rows[0] == "none"@)),
            forall|q: int| 0 <= q < items.len() ==> #[trigger] rows[q] == items@[q]@,
            forall|q: int| 0 <= q < k ==> !(#[trigger] rows[q] == "all"@ || rows[q] == "none"@),
        decreases items.len() - k,
    {
        if same_text(&items[k], "all") || same_text(&items[k], "none") {
            proof {
                assert(rows[k as int] == "all"@ || rows[k as int] == "none"@);
            }
            return Err(parse_error("`all` and `none` must appear alone"));
        }
        k = k + 1;
    }
    let mut set = VariationSet::none();
    let mut i: usize = 0;
    proof {
        assert(rows.take(0) =~= Seq::<Seq<char>>::empty());
    }
    while i < items.len()
        invariant
            i <= items.len(),
            rows == char_rows(items@),
            list_items(input@) == Ok::<Seq<Seq<char>>, Seq<char>>(rows),
            !(rows.len() == 1 && (rows[0] == "all"@ || rows[0] == "none"@)),
            forall|q: int| 0 <= q < items.len() ==> !(#[trigger] rows[q] == "all"@ || rows[q] == "none"@),
            forall|q: int| 0 <= q < items.len() ==> #[trigger] rows[q] == items@[q]@,
            union_items(rows.take(i as int)) == Ok::<(Set<char>, Set<char>), Seq<char>>(
                (set.ordinary(), set.keycap()),
            ),
        decreases items.len() - i,
    {
        proof {
            assert(rows.take(i + 1).drop_last() =~= rows.take(i as int));
            assert(rows.take(i + 1).last() == rows[i as int]);
        }
        match parse_variation_item(&items[i]) {
            Ok(one) => {
                set = set | one;
            },
            Err(e) => {
                proof {
                    lemma_union_items_error(rows, i as int);
                }
                return Err(e);
            },
        }
        i = i + 1;
    }
    proof {
        assert(rows.take(i as int) =~= rows);
    }
    Ok(set)
}

proof fn lemma_union_items_error(items: Seq<Seq<char>>, i: int)
    requires
        0 <= i < items.len(),
        union_items(items.take(i + 1)) is Err,
    ensures
        union_items(items) == union_items(items.take(i + 1)),
    decreases items.len() - i,
{
    if i + 1 < items.len() {
        assert(items.take(i + 2).drop_last() =~= items.take(i + 1));
        lemma_union_items_error(items, i + 1);
    } else {
        assert(items.take(i + 1) =~= items);
    }
}

// --- Ignore lists ---

/// The ignore filter names, in the order suggestions prefer them.
pub open spec fn ignore_names() -> Seq<Seq<char>> {
    seq!["git"@, "evfmt"@, "hidden"@]
}

/// The filter an ignore-list item names.
pub open spec fn ignore_label(item: Seq<char>) -> Option<IgnoreLabel> {
    if item == "git"@ {
        Some(IgnoreLabel::Git)
    } else if item == "evfmt"@ {
        Some(IgnoreLabel::Evfmt)
    } else if item == "hidden"@ {
        Some(IgnoreLabel::Hidden)
    } else {
        None
    }
}

/// The filters the items name, in order, or the message for the first
/// unknown one.
pub open spec fn label_items(items: Seq<Seq<char>>) -> Result<Seq<IgnoreLabel>, Seq<char>>
    decreases items.len(),
{
    if items.len() == 0 {
        Ok(Seq::empty())
    } else {
        match label_items(items.drop_last()) {
            Err(m) => Err(m),
            Ok(labels) => match ignore_label(items.last()) {
                Some(l) => Ok(labels.push(l)),
                None => Err(
                    "unknown ignore label `"@ + items.last() + "`"@ + suggestion_tail(
                        items.last(),
                        ignore_names(),
                    ),
                ),
            },
        }
    }
}

/// The filters an ignore list names, or its message.
pub open spec fn ignore_list(kind: UpdateKind, s: Seq<char>) -> Result<Seq<IgnoreLabel>, Seq<char>> {
    match list_items(s) {
        Err(m) => Err(m),
        Ok(items) => if items.len() == 1 && items[0] == "none"@ {
            if kind == UpdateKind::Replace {
                Ok(Seq::empty())
            } else {
                Err("`none` is only allowed with `--set-ignore`"@)
            }
        } else if items.len() == 1 && items[0] == "all"@ {
            Ok(seq![IgnoreLabel::Git, IgnoreLabel::Evfmt, IgnoreLabel::Hidden])
        } else {
            label_items(items)
        },
    }
}

proof fn lemma_label_items_error(items: Seq<Seq<char>>, i: int)
    requires
        0 <= i < items.len(),
        label_items(items.take(i + 1)) is Err,
    ensures
        label_items(items) == label_items(items.take(i + 1)),
    decreases items.len() - i,
{
    if i + 1 < items.len() {
        assert(items.take(i + 2).drop_last() =~= items.take(i + 1));
        lemma_label_items_error(items, i + 1);
    } else {
        assert(items.take(i + 1) =~= items);
    }
}

/// Parses an ignore list for an operation of kind `kind`, as
/// [`ignore_list`] states.
pub fn parse_ignore_list(kind: UpdateKind, input: &str) -> (r: Result<Vec<IgnoreLabel>, CliParseError>)
    ensures
        match ignore_list(kind, input@) {
            Ok(labels) => r matches Ok(v) && v@ == labels,
            Err(m) => r matches Err(e) && e.message@ == m,
        },
{
    let items = match split_list_items(input) {
        Ok(items) => items,
        Err(e) => {
            return Err(e);
        },
    };
    let ghost rows = char_rows(items@);
    proof {
        assert(rows.len() == items.len());
        assert(forall|k: int| 0 <= k < items.len() ==> #[trigger] rows[k] == items@[k]@);
    }
    let mut labels: Vec<IgnoreLabel> = Vec::new();
    if items.len() == 1 && same_text(&items[0], "none") {
        if kind == UpdateKind::Replace {
            return Ok(labels);
        }
        return Err(parse_error("`none` is only allowed with `--set-ignore`"));
    }
    if items.len() == 1 && same_text(&items[0], "all") {
        return Ok(vec![IgnoreLabel::Git, IgnoreLabel::Evfmt, IgnoreLabel::Hidden]);
    }
    let mut i: usize = 0;
    proof {
        assert(rows.take(0) =~= Seq::<Seq<char>>::empty());
    }
    while i < items.len()
        invariant
            i <= items.len(),
            rows == char_rows(items@),
            list_items(input@) == Ok::<Seq<Seq<char>>, Seq<char>>(rows),
            !(rows.len() == 1 && (rows[0] == "all"@ || rows[0] == "none"@)),
            forall|q: int| 0 <= q < items.len() ==> #[trigger] rows[q] == items@[q]@,
            label_items(rows.take(i as int)) == Ok::<Seq<IgnoreLabel>, Seq<char>>(labels@),
        decreases items.len() - i,
    {
        proof {
            assert(rows.take(i + 1).drop_last() =~= rows.take(i as int));
            assert(rows.take(i + 1).last() == rows[i as int]);
        }
        let item = &items[i];
        let label = if same_text(item, "git") {
            IgnoreLabel::Git
        } else if same_text(item, "evfmt") {
            IgnoreLabel::Evfmt
        } else if same_text(item, "hidden") {
            IgnoreLabel::Hidden
        } else {
            let mut message = item_error("unknown ignore label `", item, "`").message;
            let names = ["git", "evfmt", "hidden"];
            proof {
                assert(str_views(names@) =~= ignore_names());
                lemma_label_items_error(rows, i as int);
            }
            push_suggestion(&mut message, item, &names);
            return Err(CliParseError { message });
        };
        labels.push(label);
        i = i + 1;
    }
    proof {
        assert(rows.take(i as int) =~= rows);
    }
    Ok(labels)
}

// --- Settings ---

/// The settings the operations build, as sets of positions.
pub struct SettingsModel {
    /// The ordinary and keycap positions of `prefer_bare`.
    pub prefer_bare: (Set<char>, Set<char>),
    /// The ordinary and keycap positions of `bare_as_text`.
    pub bare_as_text: (Set<char>, Set<char>),
    /// The enabled ignore filters.
    pub ignore: IgnoreSettings,
}

/// The settings before any operation: `ascii` for both policy sets and
/// every ignore filter enabled.
pub open spec fn initial_settings() -> SettingsModel {
    SettingsModel {
        prefer_bare: (named_members(NamedSet::Ascii), Set::empty()),
        bare_as_text: (named_members(NamedSet::Ascii), Set::empty()),
        ignore: IgnoreSettings { git: true, evfmt: true, hidden: true },
    }
}

/// `current` replaced by, extended by, or reduced by `parsed`.
pub open spec fn update_sets(current: (Set<char>, Set<char>), kind: UpdateKind, parsed: (
    Set<char>,
    Set<char>,
)) -> (Set<char>, Set<char>) {
    match kind {
        UpdateKind::Replace => parsed,
        UpdateKind::Add => (current.0.union(parsed.0), current.1.union(parsed.1)),
        UpdateKind::Remove => (current.0.difference(parsed.0), current.1.difference(parsed.1)),
    }
}

/// `current` with the filters in `labels` made the enabled ones, enabled,
/// or disabled.
pub open spec fn update_ignore(current: IgnoreSettings, kind: UpdateKind, labels: Seq<IgnoreLabel>) -> IgnoreSettings {
    match kind {
        UpdateKind::Replace => IgnoreSettings {
            git: names(labels, IgnoreLabel::Git),
            evfmt: names(labels, IgnoreLabel::Evfmt),
            hidden: names(labels, IgnoreLabel::Hidden),
        },
        UpdateKind::Add => IgnoreSettings {
            git: current.git || names(labels, IgnoreLabel::Git),
            evfmt: current.evfmt || names(labels, IgnoreLabel::Evfmt),
            hidden: current.hidden || names(labels, IgnoreLabel::Hidden),
        },
        UpdateKind::Remove => IgnoreSettings {
            git: current.git && !names(labels, IgnoreLabel::Git),
            evfmt: current.evfmt && !names(labels, IgnoreLabel::Evfmt),
            hidden: current.hidden && !names(labels, IgnoreLabel::Hidden),
        },
    }
}

/// The settings after one operation with value `value`, or the message
/// for the value.
pub open spec fn apply_operation(st: SettingsModel, id: OperationId, value: Seq<char>) -> Result<
    SettingsModel,
    Seq<char>,
> {
    match id.runtime_spec() {
        RuntimeOperation::PreferBare(kind) => match variation_list(kind, value) {
            Err(m) => Err(m),
            Ok(p) => Ok(
                SettingsModel {
                    prefer_bare: update_sets(st.prefer_bare, kind, p),
                    bare_as_text: st.bare_as_text,
                    ignore: st.ignore,
                },
            ),
        },
        RuntimeOperation::BareAsText(kind) => match variation_list(kind, value) {
            Err(m) => Err(m),
            Ok(p) => Ok(
                SettingsModel {
                    prefer_bare: st.prefer_bare,
                    bare_as_text: update_sets(st.bare_as_text, kind, p),
                    ignore: st.ignore,
                },
            ),
        },
        RuntimeOperation::Ignore(kind) => match ignore_list(kind, value) {
            Err(m) => Err(m),
            Ok(labels) => Ok(
                SettingsModel {
                    prefer_bare: st.prefer_bare,
                    bare_as_text: st.bare_as_text,
                    ignore: update_ignore(st.ignore, kind, labels),
                },
            ),
        },
    }
}

/// The settings after the operations, applied from left to right, or the
/// first failing operation and its message.
pub open spec fn settings_after(ops: Seq<OrderedOperation>) -> Result<
    SettingsModel,
    (OperationId, Seq<char>),
>
    decreases ops.len(),
{
    if ops.len() == 0 {
        Ok(initial_settings())
    } else {
        match settings_after(ops.drop_last()) {
            Err(e) => Err(e),
            Ok(st) => match apply_operation(st, ops.last().id, ops.last().value@) {
                Err(m) => Err((ops.last().id, m)),
                Ok(next) => Ok(next),
            },
        }
    }
}

/// The policy and ignore filters a command runs with.
pub struct RuntimeSettings {
    pub policy: Policy,
    pub ignore: IgnoreSettings,
}

/// A bad option value: the option's name and the error.
#[derive(Debug)]
pub struct UsageError {
    pub flag: &'static str,
    pub error: CliParseError,
}

/// Whether `v` holds the positions `m`.
pub open spec fn holds_sets(v: VariationSet, m: (Set<char>, Set<char>)) -> bool {
    v.ordinary() == m.0 && v.keycap() == m.1
}

fn apply_set_update(current: VariationSet, kind: UpdateKind, parsed: VariationSet) -> (r: VariationSet)
    ensures
        holds_sets(
            r,
            update_sets((current.ordinary(), current.keycap()), kind, (parsed.ordinary(), parsed.keycap())),
        ),
{
    match kind {
        UpdateKind::Replace => parsed,
        UpdateKind::Add => current | parsed,
        UpdateKind::Remove => current - parsed,
    }
}

fn apply_ignore_update(settings: &mut IgnoreSettings, kind: UpdateKind, parsed: &[IgnoreLabel])
    ensures
        *final(settings) == update_ignore(*old(settings), kind, parsed@),
{
    match kind {
        UpdateKind::Replace => {
            *settings = IgnoreSettings::from_labels(parsed);
        },
        UpdateKind::Add => settings.enable(parsed),
        UpdateKind::Remove => settings.disable(parsed),
    }
}

proof fn lemma_settings_error(ops: Seq<OrderedOperation>, i: int)
    requires
        0 <= i < ops.len(),
        settings_after(ops.take(i + 1)) is Err,
    ensures
        settings_after(ops) == settings_after(ops.take(i + 1)),
    decreases ops.len() - i,
{
    if i + 1 < ops.len() {
        assert(ops.take(i + 2).drop_last() =~= ops.take(i + 1));
        lemma_settings_error(ops, i + 1);
    } else {
        assert(ops.take(i + 1) =~= ops);
    }
}

/// Applies the operations from left to right, as [`settings_after`]
/// states: the resulting policy and ignore filters, or the first bad
/// option value.
pub fn build_runtime_settings(operations: &[OrderedOperation]) -> (r: Result<RuntimeSettings, UsageError>)
    ensures
        match settings_after(operations@) {
            Ok(st) => r matches Ok(s) && holds_sets(s.policy.prefer_bare_set(), st.prefer_bare)
                && holds_sets(s.policy.bare_as_text_set(), st.bare_as_text) && s.ignore
                == st.ignore,
            Err((id, m)) => r matches Err(e) && e.flag@ == id.flag_text() && e.error.message@ == m,
        },
{
    let mut prefer_bare = variation_set::ascii();
    let mut bare_as_text = variation_set::ascii();
    let mut ignore = IgnoreSettings::default();
    let mut k: usize = 0;
    proof {
        assert(operations@.take(0) =~= Seq::<OrderedOperation>::empty());
    }
    while k < operations.len()
        invariant
            k <= operations.len(),
            settings_after(operations@.take(k as int)) == Ok::<SettingsModel, (OperationId, Seq<char>)>(
                SettingsModel {
                    prefer_bare: (prefer_bare.ordinary(), prefer_bare.keycap()),
                    bare_as_text: (bare_as_text.ordinary(), bare_as_text.keycap()),
                    ignore,
                },
            ),
        decreases operations.len() - k,
    {
        let operation = &operations[k];
        proof {
            assert(operations@.take(k + 1).drop_last() =~= operations@.take(k as int));
            assert(operations@.take(k + 1).last() == operations@[k as int]);
        }
        match operation.id.runtime_operation() {
            RuntimeOperation::PreferBare(kind) => {
                match parse_variation_set_list(kind, operation.value.as_str()) {
                    Ok(parsed) => {
                        prefer_bare = apply_set_update(prefer_bare, kind, parsed);
                    },
                    Err(error) => {
                        proof {
                            lemma_settings_error(operations@, k as int);
                        }
                        return Err(UsageError { flag: operation.id.flag_name(), error });
                    },
                }
            },
            RuntimeOperation::BareAsText(kind) => {
                match parse_variation_set_list(kind, operation.value.as_str()) {
                    Ok(parsed) => {
                        bare_as_text = apply_set_update(bare_as_text, kind, parsed);
                    },
                    Err(error) => {
                        proof {
                            lemma_settings_error(operations@, k as int);
                        }
                        return Err(UsageError { flag: operation.id.flag_name(), error });
                    },
                }
            },
            RuntimeOperation::Ignore(kind) => {
                match parse_ignore_list(kind, operation.value.as_str()) {
                    Ok(parsed) => {
                        apply_ignore_update(&mut ignore, kind, parsed.as_slice());
                    },
                    Err(error) => {
                        proof {
                            lemma_settings_error(operations@, k as int);
                        }
                        return Err(UsageError { flag: operation.id.flag_name(), error });
                    },
                }
            },
        }
        k = k + 1;
    }
    proof {
        assert(operations@.take(k as int) =~= operations@);
    }
    let policy = Policy::default().with_prefer_bare(prefer_bare).with_bare_as_text(bare_as_text);
    Ok(RuntimeSettings { policy, ignore })
}

/// A text without commas is a list of itself alone.
proof fn lemma_split_without_commas(s: Seq<char>)
    requires
        forall|k: int| 0 <= k < s.len() ==> #[trigger] s[k] != ',',
    ensures
        split_commas(s) == seq![s],
    decreases s.len(),
{
    if s.len() > 0 {
        lemma_split_without_commas(s.drop_last());
        assert(s.drop_last().push(s.last()) =~= s);
    } else {
        assert(s =~= Seq::<char>::empty());
    }
}

/// A list that is one code point item, `u(HEX)` or `k(HEX)`, whose four to
/// six hexadecimal digits name a character with variation sequences, gives
/// exactly that character: its ordinary position after `u`, its keycap
/// position after `k`, whatever the kind of update.
pub proof fn lemma_code_point_list(kind: UpdateKind, keycap: bool, digits: Seq<char>, c: char)
    requires
        4 <= digits.len() <= 6,
        forall|k: int|
            0 <= k < digits.len() ==> ('0' <= #[trigger] digits[k] && digits[k] <= '9') || ('a'
                <= digits[k] && digits[k] <= 'f') || ('A' <= digits[k] && digits[k] <= 'F'),
        c as u32 == hex_number(digits),
        has_vs(c),
    ensures
        variation_list(
            kind,
            seq![if keycap { 'k' } else { 'u' }, '('] + digits + seq![')'],
        ) == Ok::<(Set<char>, Set<char>), Seq<char>>(
            if keycap {
                (Set::<char>::empty(), set![c])
            } else {
                (set![c], Set::<char>::empty())
            },
        ),
{
    let s = seq![if keycap { 'k' } else { 'u' }, '('] + digits + seq![')'];
    let n = s.len() as int;
    assert(s[0] == if keycap { 'k' } else { 'u' });
    assert(s[1] == '(');
    assert(s[n - 1] == ')');
    assert forall|k: int| 0 <= k < s.len() implies #[trigger] s[k] != ',' by {
        if 2 <= k < n - 1 {
            assert(s[k] == digits[k - 2]);
        }
    }
    lemma_split_without_commas(s);
    assert(trimmed(s) == s) by {
        assert(skip_ws(s, 0) == 0);
        assert(trim_end(s, 0, n) == n);
        assert(s.subrange(0, n) =~= s);
    }
    let items = split_commas(s).map_values(|p: Seq<char>| trimmed(p));
    assert(items =~= seq![s]);
    assert(list_items(s) == Ok::<Seq<Seq<char>>, Seq<char>>(seq![s]));
    reveal_strlit("all");
    reveal_strlit("none");
    assert(s != "all"@ && s != "none"@) by {
        assert(s[1] != "all"@[1]);
        assert(s[1] != "none"@[1]);
    }
    reveal_strlit("ascii");
    reveal_strlit("text-defaults");
    reveal_strlit("emoji-defaults");
    reveal_strlit("rights-marks");
    reveal_strlit("arrows");
    reveal_strlit("card-suits");
    reveal_strlit("keycap-chars");
    reveal_strlit("non-keycap-chars");
    reveal_strlit("keycap-emojis");
    assert(preset(s) is None) by {
        assert(s[1] != "ascii"@[1]);
        assert(s[1] != "text-defaults"@[1]);
        assert(s[1] != "emoji-defaults"@[1]);
        assert(s[1] != "rights-marks"@[1]);
        assert(s[1] != "arrows"@[1]);
        assert(s[1] != "card-suits"@[1]);
        assert(s[1] != "keycap-chars"@[1]);
        assert(s[1] != "non-keycap-chars"@[1]);
        assert(s[1] != "keycap-emojis"@[1]);
    }
    let hex = s.subrange(2, n - 1);
    assert(hex =~= digits);
    vstd::utf8::char_is_scalar(c);
    vstd::utf8::char_u32_cast(c, c as u32);
    assert((hex_number(hex) as u32) as char == c);
    assert(!(exists|k: int| 0 <= k < hex.len() && !hex_char(#[trigger] hex[k])));
    let expected = if keycap {
        (Set::<char>::empty(), set![c])
    } else {
        (set![c], Set::<char>::empty())
    };
    assert(variation_item(s) == Ok::<(Set<char>, Set<char>), Seq<char>>(expected));
    assert(union_items(seq![s]) == Ok::<(Set<char>, Set<char>), Seq<char>>(expected)) by {
        assert(seq![s].drop_last() =~= Seq::<Seq<char>>::empty());
        assert(union_items(Seq::<Seq<char>>::empty()) == Ok::<(Set<char>, Set<char>), Seq<char>>(
            (Set::<char>::empty(), Set::<char>::empty()),
        ));
        assert(seq![s].last() == s);
        assert(set![c].union(Set::<char>::empty()) =~= set![c]);
        assert(Set::<char>::empty().union(set![c]) =~= set![c]);
        assert(Set::<char>::empty().union(Set::<char>::empty()) =~= Set::<char>::empty());
    }
}

/// A list that is one item, with no comma and no white space at either end,
/// and neither `all` nor `none`, names what that item names.
proof fn lemma_one_item_list(kind: UpdateKind, s: Seq<char>)
    requires
        s.len() > 0,
        forall|k: int| 0 <= k < s.len() ==> #[trigger] s[k] != ',',
        !white_space(s[0]),
        !white_space(s[s.len() - 1]),
        s != "all"@,
        s != "none"@,
    ensures
        variation_list(kind, s) == match variation_item(s) {
            Ok((o, k)) => Ok::<(Set<char>, Set<char>), Seq<char>>(
                (Set::<char>::empty().union(o), Set::<char>::empty().union(k)),
            ),
            Err(m) => Err(m),
        },
{
    let n = s.len() as int;
    lemma_split_without_commas(s);
    assert(trimmed(s) == s) by {
        assert(skip_ws(s, 0) == 0);
        assert(trim_end(s, 0, n) == n);
        assert(s.subrange(0, n) =~= s);
    }
    let items = split_commas(s).map_values(|p: Seq<char>| trimmed(p));
    assert(items =~= seq![s]);
    assert(list_items(s) == Ok::<Seq<Seq<char>>, Seq<char>>(seq![s]));
    assert(seq![s].drop_last() =~= Seq::<Seq<char>>::empty());
    assert(union_items(Seq::<Seq<char>>::empty()) == Ok::<(Set<char>, Set<char>), Seq<char>>(
        (Set::<char>::empty(), Set::<char>::empty()),
    ));
    assert(seq![s].last() == s);
}

/// The preset lists name exactly the characters the help text lists for
/// them: `arrows` the fourteen arrows U+2194..U+2199, U+21A9, U+21AA,
/// U+27A1, U+2934, U+2935, U+2B05, U+2B06 and U+2B07; `rights-marks`
/// U+00A9, U+00AE and U+2122; `card-suits` U+2660, U+2663, U+2665 and
/// U+2666, each in ordinary positions; `keycap-emojis` `#`, `*` and the
/// digits in keycap positions.
pub proof fn lemma_listed_presets(kind: UpdateKind)
    ensures
        variation_list(kind, "arrows"@) == Ok::<(Set<char>, Set<char>), Seq<char>>(
            (
                set![
                    '\u{2194}', '\u{2195}', '\u{2196}', '\u{2197}', '\u{2198}', '\u{2199}',
                    '\u{21A9}', '\u{21AA}', '\u{27A1}', '\u{2934}', '\u{2935}', '\u{2B05}',
                    '\u{2B06}', '\u{2B07}',
                ],
                Set::<char>::empty(),
            ),
        ),
        variation_list(kind, "rights-marks"@) == Ok::<(Set<char>, Set<char>), Seq<char>>(
            (set!['\u{00A9}', '\u{00AE}', '\u{2122}'], Set::<char>::empty()),
        ),
        variation_list(kind, "card-suits"@) == Ok::<(Set<char>, Set<char>), Seq<char>>(
            (set!['\u{2660}', '\u{2663}', '\u{2665}', '\u{2666}'], Set::<char>::empty()),
        ),
        variation_list(kind, "keycap-emojis"@) == Ok::<(Set<char>, Set<char>), Seq<char>>(
            (
                Set::<char>::empty(),
                set!['#', '*', '0', '1', '2', '3', '4', '5', '6', '7', '8', '9'],
            ),
        ),
{
    reveal_strlit("all");
    reveal_strlit("none");
    reveal_strlit("ascii");
    reveal_strlit("text-defaults");
    reveal_strlit("emoji-defaults");
    reveal_strlit("rights-marks");
    reveal_strlit("arrows");
    reveal_strlit("card-suits");
    reveal_strlit("keycap-chars");
    reveal_strlit("non-keycap-chars");
    reveal_strlit("keycap-emojis");
    crate::charset::lemma_arrows_members();
    crate::charset::lemma_rights_marks_members();
    crate::charset::lemma_card_suits_members();
    crate::charset::lemma_keycap_emojis_members();
    let e = Set::<char>::empty();
    let a = "arrows"@;
    assert(forall|k: int| 0 <= k < a.len() ==> #[trigger] a[k] != ',');
    assert(a != "all"@ && a != "none"@ && a != "ascii"@ && a != "text-defaults"@ && a
        != "emoji-defaults"@ && a != "rights-marks"@);
    lemma_one_item_list(kind, a);
    assert(e.union(named_members(NamedSet::Arrows)) =~= named_members(NamedSet::Arrows));
    assert(e.union(e) =~= e);
    let r = "rights-marks"@;
    assert(forall|k: int| 0 <= k < r.len() ==> #[trigger] r[k] != ',');
    assert(r != "all"@ && r != "none"@ && r != "ascii"@ && r != "text-defaults"@ && r
        != "emoji-defaults"@);
    lemma_one_item_list(kind, r);
    assert(e.union(named_members(NamedSet::RightsMarks)) =~= named_members(NamedSet::RightsMarks));
    let c = "card-suits"@;
    assert(forall|k: int| 0 <= k < c.len() ==> #[trigger] c[k] != ',');
    assert(c != "all"@ && c != "none"@ && c != "ascii"@ && c != "text-defaults"@ && c
        != "emoji-defaults"@ && c != "rights-marks"@ && c != "arrows"@);
    lemma_one_item_list(kind, c);
    assert(e.union(named_members(NamedSet::CardSuits)) =~= named_members(NamedSet::CardSuits));
    let k = "keycap-emojis"@;
    assert(forall|j: int| 0 <= j < k.len() ==> #[trigger] k[j] != ',');
    assert(k != "all"@ && k != "none"@ && k != "ascii"@ && k != "text-defaults"@ && k
        != "emoji-defaults"@ && k != "rights-marks"@ && k != "arrows"@ && k != "card-suits"@ && k
        != "keycap-chars"@ && k != "non-keycap-chars"@);
    lemma_one_item_list(kind, k);
    assert(e.union(named_members(NamedSet::KeycapEmojis)) =~= named_members(
        NamedSet::KeycapEmojis,
    ));
}

} // verus!
