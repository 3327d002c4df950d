//! The `profile delete` subcommand: which profiles a request names, and how
//! the profile list and the active profile change when they are removed.
use vstd::prelude::*;
use crate::config::{first_index, lemma_first_index, profile_names, ProfileConfig, ProfileOptions};
use crate::text::{debug_quoted, debug_text, same_text};
use crate::utils::string_views;

verus! {

/// `del` lists positions below `len`, in strictly increasing order.
pub open spec fn valid_deletion(del: Seq<usize>, len: nat) -> bool {
    &&& forall|i: int, j: int| 0 <= i < j < del.len() ==> del[i] < del[j]
    &&& forall|i: int| 0 <= i < del.len() ==> del[i] < len
}

/// The profiles among the first `n` of `list` whose positions are not in
/// `del`, in their order.
pub open spec fn kept_prefix(list: Seq<ProfileOptions>, del: Seq<usize>, n: nat) -> Seq<
    ProfileOptions,
>
    decreases n,
{
    if n == 0 {
        seq![]
    } else {
        let rest = kept_prefix(list, del, (n - 1) as nat);
        if del.contains((n - 1) as usize) {
            rest
        } else {
            rest.push(list[n - 1])
        }
    }
}

/// The profiles that remain after the positions in `del` are removed.
pub open spec fn kept_profiles(list: Seq<ProfileOptions>, del: Seq<usize>) -> Seq<ProfileOptions> {
    kept_prefix(list, del, list.len())
}

/// How many positions in `del` lie below `a`.
pub open spec fn deleted_below(del: Seq<usize>, a: usize) -> nat
    decreases del.len(),
{
    if del.len() == 0 {
        0
    } else {
        deleted_below(del.drop_last(), a) + (if del.last() < a {
            1nat
        } else {
            0nat
        })
    }
}

/// The active profile after the positions in `del` are removed: none where
/// the active one is removed, else the same profile, whose position moves
/// down by one for each removed profile before it.
pub open spec fn active_after(active: Option<usize>, del: Seq<usize>) -> Option<usize> {
    match active {
        None => None,
        Some(a) => if del.contains(a) {
            None
        } else {
            Some((a - deleted_below(del, a)) as usize)
        },
    }
}

/// The entry that stands for every profile in a deletion request.
pub open spec fn all_marker() -> Seq<char> {
    "(all)"@
}

/// The pieces of `s` between its commas (`str::split(',')`).
pub open spec fn split_commas(s: Seq<char>) -> Seq<Seq<char>>
    decreases s.len(),
{
    if s.len() == 0 {
        seq![seq![]]
    } else {
        let p = split_commas(s.drop_last());
        if s.last() == ',' {
            p.push(seq![])
        } else {
            p.update(p.len() - 1, p.last().push(s.last()))
        }
    }
}

/// The first `k` requested names all belong to some profile.
pub open spec fn all_found(list: Seq<ProfileOptions>, names: Seq<String>, k: int) -> bool {
    forall|j: int| 0 <= j < k ==> (first_index(profile_names(list), #[trigger] names[j]@) is Some)
}

/// Position `x` is the first profile of one of the first `k` requested names.
pub open spec fn requested(list: Seq<ProfileOptions>, names: Seq<String>, k: int, x: usize) -> bool {
    exists|j: int|
        0 <= j < k && first_index(profile_names(list), #[trigger] names[j]@) == Some(x as int)
}

/// `e` reports the first requested name that no profile has.
pub open spec fn first_missing(list: Seq<ProfileOptions>, names: Seq<String>, e: DeleteError) -> bool {
    exists|k: int|
        0 <= k < names.len() && all_found(list, names, k) && (first_index(
            profile_names(list),
            #[trigger] names[k]@,
        ) is None) && e == (DeleteError::NotFound { name: names[k] })
}

/// Splitting at commas loses nothing: there is always at least one piece, no
/// piece holds a comma, and the pieces joined by commas give the input back.
pub proof fn lemma_split_commas_join(s: Seq<char>)
    ensures
        split_commas(s).len() >= 1,
        forall|k: int, j: int|
            0 <= k < split_commas(s).len() && 0 <= j < split_commas(s)[k].len() ==> #[trigger] split_commas(
                s,
            )[k][j] != ',',
        crate::text::join_with(split_commas(s), seq![',']) == s,
    decreases s.len(),
{
    if s.len() > 0 {
        let s0 = s.drop_last();
        let c = s.last();
        lemma_split_commas_join(s0);
        let p = split_commas(s0);
        let n = p.len();
        let sep = seq![','];
        if c == ',' {
            let q = p.push(Seq::<char>::empty());
            assert(q.drop_last() == p);
            assert(crate::text::join_with(q, sep) == crate::text::join_with(p, sep) + sep + Seq::<
                char,
            >::empty());
            assert(s0 + sep + Seq::<char>::empty() == s);
            assert forall|k: int, j: int| 0 <= k < q.len() && 0 <= j < q[k].len() implies #[trigger] q[k][j]
                != ',' by {
                assert(q[k] == p[k]);
            }
        } else {
            let x = p.last().push(c);
            let q = p.update(n - 1, x);
            assert(q.drop_last() == p.drop_last());
            assert(q.last() == x);
            if n == 1 {
                assert(crate::text::join_with(p, sep) == p[0]);
                assert(p[0] == p.last());
                assert(s0.push(c) == s);
            } else {
                assert(crate::text::join_with(p, sep) == crate::text::join_with(p.drop_last(), sep)
                    + sep + p.last());
                assert(crate::text::join_with(p.drop_last(), sep) + sep + x == s0.push(c));
                assert(s0.push(c) == s);
            }
            assert forall|k: int, j: int| 0 <= k < q.len() && 0 <= j < q[k].len() implies #[trigger] q[k][j]
                != ',' by {
                if k < n - 1 {
                    assert(q[k] == p[k]);
                } else if j < p.last().len() {
                    assert(q[k][j] == p[n - 1][j]);
                }
            }
        }
    }
}

/// A value without commas is one piece; where it neither starts nor ends
/// with white space it comes back unchanged (white space inside is kept).
pub proof fn lemma_single_piece(s: Seq<char>)
    requires
        forall|j: int| 0 <= j < s.len() ==> #[trigger] s[j] != ',',
    ensures
        trimmed_pieces(s) == seq![crate::text::trim(s)],
        s.len() > 0 ==> !crate::text::is_white_space(s[0]) && !crate::text::is_white_space(s.last())
            ==> trimmed_pieces(s) == seq![s],
{
    lemma_split_commas_join(s);
    let p = split_commas(s);
    if p.len() > 1 {
        assert(crate::text::join_with(p, seq![',']) == crate::text::join_with(p.drop_last(), seq![','])
            + seq![','] + p.last());
        let pre = crate::text::join_with(p.drop_last(), seq![',']);
        assert(s[pre.len() as int] == ',');
    }
    assert(p.len() == 1);
    assert(crate::text::join_with(p, seq![',']) == p[0]);
    assert(trimmed_pieces(s) =~= seq![crate::text::trim(s)]);
    if s.len() > 0 && !crate::text::is_white_space(s[0]) && !crate::text::is_white_space(s.last()) {
        crate::text::lemma_trim_keeps_trimmed(s);
    }
    if s.len() == 0 {
        crate::text::lemma_trim_keeps_trimmed(s);
    }
}

/// Why a deletion cannot go ahead.
#[derive(Debug, PartialEq, Eq)]
pub enum DeleteError {
    /// The profile list is empty.
    NoProfiles,
    /// No profile has the requested name.
    NotFound { name: String },
}

impl DeleteError {
    /// The error text.
    pub fn message(&self) -> (m: String)
        ensures
            match self {
                DeleteError::NoProfiles => m@ == "No profiles found to delete"@,
                DeleteError::NotFound { name } => m@ == "Profile "@ + debug_text(name@)
                    + " not found"@,
            },
    {
        match self {
            DeleteError::NoProfiles => "No profiles found to delete".to_owned(),
            DeleteError::NotFound { name } => {
                let mut m = "Profile ".to_owned();
                let q = debug_quoted(name.as_str());
                m.append(q.as_str());
                m.append(" not found");
                m
            },
        }
    }
}

/// What to ask before a deletion.
#[derive(Debug, PartialEq, Eq)]
pub enum DeletionPrompt {
    /// One profile, the active one, is to be removed.
    ActiveProfile { name: String },
    /// One profile, not the active one, is to be removed.
    Profile { name: String },
    /// Some other number of profiles is to be removed.
    Profiles { count: usize },
}

/// A profile that a deletion removed.
#[derive(Debug, PartialEq, Eq)]
pub struct DeletedProfile {
    /// Its name.
    pub name: String,
    /// Whether it was the active profile.
    pub was_active: bool,
}

/// The comma-separated pieces of `s`, each trimmed.
pub open spec fn trimmed_pieces(s: Seq<char>) -> Seq<Seq<char>> {
    split_commas(s).map_values(|p: Seq<char>| crate::text::trim(p))
}

/// The profile names that the values of a non-interactive request hold: the
/// comma-separated pieces of each value, trimmed, in order.
pub open spec fn names_in(values: Seq<Seq<char>>) -> Seq<Seq<char>>
    decreases values.len(),
{
    if values.len() == 0 {
        seq![]
    } else {
        names_in(values.drop_last()) + trimmed_pieces(values.last())
    }
}

/// The comma-separated pieces of one value, each trimmed.
pub fn split_names(input: &str) -> (r: Vec<String>)
    ensures
        string_views(r@) == trimmed_pieces(input@),
        (forall|j: int| 0 <= j < input@.len() ==> #[trigger] input@[j] != ',') && (input@.len() > 0
            ==> !crate::text::is_white_space(input@[0]) && !crate::text::is_white_space(input@.last()))
            ==> r@.len() == 1 && r@[0]@ == input@,
{
    let v = crate::text::chars_of(input);
    let n = v.len();
    let mut done: Vec<String> = Vec::new();
    let mut start: usize = 0;
    let mut i: usize = 0;
    while i < n
        invariant
            start <= i <= n == v.len(),
            v@ == input@,
            split_commas(v@.take(i as int)).len() == done@.len() + 1,
            forall|k: int|
                0 <= k < done@.len() ==> (#[trigger] done@[k])@ == crate::text::trim(
                    split_commas(v@.take(i as int))[k],
                ),
            split_commas(v@.take(i as int)).last() == v@.subrange(start as int, i as int),
        decreases n - i,
    {
        let ghost before = split_commas(v@.take(i as int));
        assert(v@.take(i + 1).drop_last() == v@.take(i as int));
        if v[i] == ',' {
            let piece = crate::text::string_of(&v, start, i);
            let t = crate::text::trimmed(piece.as_str());
            done.push(t);
            start = i + 1;
            assert(v@.subrange(start as int, i + 1) == Seq::<char>::empty());
        } else {
            assert(v@.subrange(start as int, i + 1) == v@.subrange(start as int, i as int).push(
                v@[i as int],
            ));
        }
        i = i + 1;
    }
    assert(v@.take(n as int) == v@);
    let piece = crate::text::string_of(&v, start, n);
    let t = crate::text::trimmed(piece.as_str());
    done.push(t);
    assert(string_views(done@) =~= trimmed_pieces(input@));
    proof {
        if (forall|j: int| 0 <= j < input@.len() ==> #[trigger] input@[j] != ',') && (input@.len() > 0
            ==> !crate::text::is_white_space(input@[0]) && !crate::text::is_white_space(input@.last())) {
            lemma_single_piece(input@);
            assert(string_views(done@)[0] == done@[0]@);
        }
    }
    done
}

/// The profile names of a non-interactive request (`"(all)"` stands for
/// all): every comma-separated piece of every value, trimmed, in order.
pub fn requested_names(values: &Vec<String>) -> (r: Vec<String>)
    ensures
        string_views(r@) == names_in(string_views(values@)),
{
    let mut r: Vec<String> = Vec::new();
    let n = values.len();
    let mut i: usize = 0;
    while i < n
        invariant
            i <= n == values@.len(),
            string_views(r@) == names_in(string_views(values@).take(i as int)),
        decreases n - i,
    {
        let ghost before = r@;
        let mut pieces = split_names(values[i].as_str());
        let ghost added = pieces@;
        r.append(&mut pieces);
        proof {
            let vs = string_views(values@);
            assert(vs.take(i + 1).drop_last() == vs.take(i as int));
            assert(vs.take(i + 1).last() == values@[i as int]@);
            assert(string_views(r@) =~= string_views(before) + string_views(added));
        }
        i = i + 1;
    }
    assert(string_views(values@).take(n as int) == string_views(values@));
    r
}

/// Whether a request stands for every profile: it is the single entry
/// `"(all)"`.
pub fn is_delete_all(names: &Vec<String>) -> (r: bool)
    ensures
        r == (names@.len() == 1 && names@[0]@ == all_marker()),
{
    names.len() == 1 && same_text(&names[0], "(all)")
}

/// The entries chosen in the interactive picker: the single entry `"(all)"`
/// where it is among them, else the chosen entries.
pub fn selection_names(selected: Vec<String>) -> (r: Vec<String>)
    ensures
        (exists|k: int| 0 <= k < selected@.len() && (#[trigger] selected@[k])@ == all_marker()) ==> (
        r@.len() == 1 && r@[0]@ == all_marker()),
        !(exists|k: int| 0 <= k < selected@.len() && (#[trigger] selected@[k])@ == all_marker())
            ==> r@ == selected@,
{
    let n = selected.len();
    let mut i: usize = 0;
    while i < n
        invariant
            i <= n == selected@.len(),
            forall|k: int| 0 <= k < i ==> (#[trigger] selected@[k])@ != all_marker(),
        decreases n - i,
    {
        if same_text(&selected[i], "(all)") {
            let mut r: Vec<String> = Vec::new();
            r.push("(all)".to_owned());
            return r;
        }
        i = i + 1;
    }
    selected
}

/// Inserts `x` into a strictly increasing list, keeping it so.
fn insert_sorted(v: &mut Vec<usize>, x: usize)
    requires
        forall|i: int, j: int| 0 <= i < j < old(v)@.len() ==> old(v)@[i] < old(v)@[j],
    ensures
        forall|i: int, j: int| 0 <= i < j < final(v)@.len() ==> final(v)@[i] < final(v)@[j],
        forall|y: usize| final(v)@.contains(y) <==> (old(v)@.contains(y) || y == x),
{
    let n = v.len();
    let mut p: usize = 0;
    while p < n && v[p] < x
        invariant
            p <= n == v@.len(),
            v@ == old(v)@,
            forall|k: int| 0 <= k < p ==> v@[k] < x,
        decreases n - p,
    {
        p = p + 1;
    }
    if p < n && v[p] == x {
        assert(v@[p as int] == x);
        return;
    }
    let ghost o = v@;
    assert(o == old(v)@);
    v.insert(p, x);
    assert forall|i: int, j: int| 0 <= i < j < v@.len() implies v@[i] < v@[j] by {
        if j < p {
        } else if j == p {
        } else if i < p {
            assert(v@[j] == o[j - 1]);
            assert(o[i] < x);
            if j - 1 > p {
                assert(o[p as int] < o[j - 1]);
            }
        } else if i == p {
            assert(v@[j] == o[j - 1]);
            if j - 1 > p {
                assert(o[p as int] < o[j - 1]);
            }
        } else {
            assert(v@[i] == o[i - 1] && v@[j] == o[j - 1]);
        }
    }
    assert forall|y: usize| v@.contains(y) implies (o.contains(y) || y == x) by {
        let k = choose|k: int| 0 <= k < v@.len() && v@[k] == y;
        if k < p {
            assert(o[k] == y);
        } else if k > p {
            assert(o[k - 1] == y);
        }
    }
    assert forall|y: usize| o.contains(y) implies v@.contains(y) by {
        let k = choose|k: int| 0 <= k < o.len() && o[k] == y;
        if k < p {
            assert(v@[k] == y);
        } else {
            assert(v@[k + 1] == y);
        }
    }
    assert(v@[p as int] == x);
    assert(v@.contains(x));
}

impl ProfileConfig {
    /// A deletion needs at least one profile.
    pub fn ensure_deletable(&self) -> (r: Result<(), DeleteError>)
        ensures
            r is Ok <==> self.list@.len() > 0,
            r matches Err(e) ==> e == DeleteError::NoProfiles,
    {
        if self.list.len() == 0 {
            Err(DeleteError::NoProfiles)
        } else {
            Ok(())
        }
    }

    /// The choices of the interactive picker: `"(all)"`, then every profile
    /// name in order.
    pub fn deletion_choices(&self) -> (r: Vec<String>)
        ensures
            r@.len() == self.list@.len() + 1,
            r@[0]@ == all_marker(),
            forall|i: int| 0 <= i < self.list@.len() ==> (#[trigger] r@[i + 1])@ == self.list@[i].name@,
    {
        let names = self.names();
        let mut r: Vec<String> = Vec::new();
        r.push("(all)".to_owned());
        let n = names.len();
        let mut i: usize = 0;
        while i < n
            invariant
                i <= n == names@.len() == self.list@.len(),
                r@.len() == i + 1,
                r@[0]@ == all_marker(),
                forall|k: int| 0 <= k < n ==> (#[trigger] names@[k])@ == self.list@[k].name@,
                forall|k: int| 0 <= k < i ==> (#[trigger] r@[k + 1])@ == self.list@[k].name@,
            decreases n - i,
        {
            r.push(names[i].clone());
            i = i + 1;
        }
        r
    }

    /// The positions of the profiles that `names` asks to delete: the first
    /// profile of each name, without repeats, in increasing order. Fails with
    /// the first name that no profile has.
    pub fn plan_deletion(&self, names: &Vec<String>) -> (r: Result<Vec<usize>, DeleteError>)
        ensures
            r is Ok <==> all_found(self.list@, names@, names@.len() as int),
            r matches Err(e) ==> first_missing(self.list@, names@, e),
            r matches Ok(v) ==> valid_deletion(v@, self.list@.len()),
            r matches Ok(v) ==> forall|x: usize|
                v@.contains(x) <==> requested(self.list@, names@, names@.len() as int, x),
    {
        let ghost pn = profile_names(self.list@);
        let mut v: Vec<usize> = Vec::new();
        let n = names.len();
        let len = self.list.len();
        let mut k: usize = 0;
        while k < n
            invariant
                k <= n == names@.len(),
                len == self.list@.len(),
                pn == profile_names(self.list@),
                forall|i: int, j: int| 0 <= i < j < v@.len() ==> v@[i] < v@[j],
                all_found(self.list@, names@, k as int),
                forall|x: usize| v@.contains(x) <==> requested(self.list@, names@, k as int, x),
                forall|j: int| 0 <= j < v@.len() ==> v@[j] < self.list@.len(),
            decreases n - k,
        {
            let name = &names[k];
            match self.position(name.as_str()) {
                Some(i) => {
                    proof {
                        lemma_first_index(pn, name@);
                        assert(name@ == names@[k as int]@);
                        assert(first_index(pn, name@) is Some);
                        let j = first_index(pn, name@)->0;
                        assert(0 <= j < pn.len());
                        assert(pn.len() == self.list@.len());
                        assert(j == i as int);
                        assert(first_index(pn, names@[k as int]@) == Some(i as int));
                    }
                    let ghost o = v@;
                    insert_sorted(&mut v, i);
                    assert forall|x: usize| v@.contains(x) <==> requested(
                        self.list@,
                        names@,
                        k + 1,
                        x,
                    ) by {
                        if x == i {
                            assert(first_index(pn, names@[k as int]@) == Some(x as int));
                        }
                        if requested(self.list@, names@, k + 1, x) {
                            let j = choose|j: int|
                                0 <= j < k + 1 && first_index(pn, #[trigger] names@[j]@) == Some(
                                    x as int,
                                );
                            if j < k {
                                assert(requested(self.list@, names@, k as int, x));
                            }
                        }
                    }
                    assert(all_found(self.list@, names@, k + 1));
                    assert forall|j: int| 0 <= j < v@.len() implies v@[j] < self.list@.len() by {
                        assert(v@.contains(v@[j]));
                        if v@[j] != i {
                            assert(o.contains(v@[j]));
                            let m = choose|m: int| 0 <= m < o.len() && o[m] == v@[j];
                            assert(o[m] < self.list@.len());
                        }
                    }
                },
                None => {
                    let e = DeleteError::NotFound { name: name.clone() };
                    assert(first_index(pn, names@[k as int]@) is None);
                    assert(!all_found(self.list@, names@, names@.len() as int));
                    return Err(e);
                },
            }
            k = k + 1;
        }
        assert forall|j: int| 0 <= j < v@.len() implies v@[j] < self.list@.len() by {}
        Ok(v)
    }

    /// What to ask before removing the profiles at `indices`.
    pub fn deletion_prompt(&self, indices: &Vec<usize>) -> (p: DeletionPrompt)
        requires
            indices@.len() == 1 ==> indices@[0] < self.list@.len(),
        ensures
            indices@.len() == 1 && self.active == Some(indices@[0]) ==> p == (
            DeletionPrompt::ActiveProfile { name: self.list@[indices@[0] as int].name }),
            indices@.len() == 1 && self.active != Some(indices@[0]) ==> p == (DeletionPrompt::Profile {
                name: self.list@[indices@[0] as int].name,
            }),
            indices@.len() != 1 ==> p == (DeletionPrompt::Profiles { count: indices@.len() as usize }),
    {
        if indices.len() == 1 {
            let i = indices[0];
            let name = self.list[i].name.clone();
            if self.is_active(i) {
                DeletionPrompt::ActiveProfile { name }
            } else {
                DeletionPrompt::Profile { name }
            }
        } else {
            DeletionPrompt::Profiles { count: indices.len() }
        }
    }
}


proof fn lemma_count_all_below(del: Seq<usize>, a: usize)
    requires
        forall|i: int| 0 <= i < del.len() ==> del[i] < a,
    ensures
        deleted_below(del, a) == del.len(),
    decreases del.len(),
{
    if del.len() > 0 {
        lemma_count_all_below(del.drop_last(), a);
    }
}

proof fn lemma_increasing_lower_bound(del: Seq<usize>)
    requires
        forall|i: int, j: int| 0 <= i < j < del.len() ==> del[i] < del[j],
    ensures
        forall|i: int| 0 <= i < del.len() ==> del[i] >= i,
    decreases del.len(),
{
    if del.len() > 0 {
        let front = del.drop_last();
        lemma_increasing_lower_bound(front);
        assert forall|i: int| 0 <= i < del.len() implies del[i] >= i by {
            if i < del.len() - 1 {
                assert(front[i] == del[i]);
            } else if i > 0 {
                assert(front[i - 1] == del[i - 1]);
            }
        }
    }
}

/// At most `a` increasing positions lie below `a`.
proof fn lemma_deleted_below_bound(del: Seq<usize>, a: usize)
    requires
        forall|i: int, j: int| 0 <= i < j < del.len() ==> del[i] < del[j],
    ensures
        deleted_below(del, a) <= a,
        deleted_below(del, a) <= del.len(),
    decreases del.len(),
{
    if del.len() > 0 {
        let front = del.drop_last();
        lemma_deleted_below_bound(front, a);
        if del.last() < a {
            lemma_increasing_lower_bound(del);
            assert forall|i: int| 0 <= i < del.len() implies del[i] < a by {
                if i < del.len() - 1 {
                    assert(del[i] < del[del.len() - 1]);
                }
            }
            lemma_count_all_below(del, a);
        }
    }
}

/// Moving the bound up by one counts `m` once if it is deleted.
proof fn lemma_deleted_below_step(del: Seq<usize>, m: usize)
    requires
        forall|i: int, j: int| 0 <= i < j < del.len() ==> del[i] < del[j],
        m < usize::MAX,
    ensures
        deleted_below(del, (m + 1) as usize) == deleted_below(del, m) + (if del.contains(m) {
            1nat
        } else {
            0nat
        }),
    decreases del.len(),
{
    if del.len() > 0 {
        let front = del.drop_last();
        lemma_deleted_below_step(front, m);
        let last = del.last();
        if front.contains(m) {
            let k = choose|k: int| 0 <= k < front.len() && front[k] == m;
            assert(del[k] == m);
            assert(del[k] < last);
        }
        if del.contains(m) {
            let k = choose|k: int| 0 <= k < del.len() && del[k] == m;
            if k < front.len() {
                assert(front[k] == m);
            }
        }
        if last == m {
            assert(del[del.len() - 1] == m);
        }
    }
}

/// The number of kept profiles among the first `m` is `m` minus the number
/// of deleted positions below `m`.
proof fn lemma_kept_prefix_len(list: Seq<ProfileOptions>, del: Seq<usize>, m: nat)
    requires
        forall|i: int, j: int| 0 <= i < j < del.len() ==> del[i] < del[j],
        m <= list.len(),
        list.len() <= usize::MAX,
    ensures
        kept_prefix(list, del, m).len() + deleted_below(del, m as usize) == m,
    decreases m,
{
    if m == 0 {
        lemma_count_zero(del);
    } else {
        lemma_kept_prefix_len(list, del, (m - 1) as nat);
        lemma_deleted_below_step(del, (m - 1) as usize);
    }
}

proof fn lemma_count_zero(del: Seq<usize>)
    ensures
        deleted_below(del, 0) == 0,
    decreases del.len(),
{
    if del.len() > 0 {
        lemma_count_zero(del.drop_last());
    }
}

/// A longer prefix extends a shorter one.
proof fn lemma_kept_prefix_extends(list: Seq<ProfileOptions>, del: Seq<usize>, m: nat, n: nat)
    requires
        m <= n,
    ensures
        kept_prefix(list, del, m).len() <= kept_prefix(list, del, n).len(),
        forall|j: int|
            0 <= j < kept_prefix(list, del, m).len() ==> kept_prefix(list, del, n)[j]
                == #[trigger] kept_prefix(list, del, m)[j],
    decreases n - m,
{
    if m < n {
        lemma_kept_prefix_extends(list, del, m, (n - 1) as nat);
    }
}

/// Removing the deleted positions leaves `len - del.len()` profiles.
pub proof fn lemma_deletion_length(list: Seq<ProfileOptions>, del: Seq<usize>)
    requires
        valid_deletion(del, list.len()),
        list.len() <= usize::MAX,
    ensures
        kept_profiles(list, del).len() == list.len() - del.len(),
{
    lemma_kept_prefix_len(list, del, list.len());
    lemma_count_all_below(del, list.len() as usize);
}

/// The active profile survives a deletion that does not remove it: the new
/// active position holds the same profile.
pub proof fn lemma_deletion_keeps_active(list: Seq<ProfileOptions>, del: Seq<usize>, a: usize)
    requires
        valid_deletion(del, list.len()),
        list.len() <= usize::MAX,
        a < list.len(),
        !del.contains(a),
    ensures
        active_after(Some(a), del) matches Some(b) && b < kept_profiles(list, del).len()
            && kept_profiles(list, del)[b as int] == list[a as int],
{
    lemma_kept_prefix_len(list, del, a as nat);
    lemma_kept_prefix_extends(list, del, (a + 1) as nat, list.len());
    let p = kept_prefix(list, del, a as nat);
    let q = kept_prefix(list, del, (a + 1) as nat);
    assert(q == p.push(list[a as int]));
    assert(q[p.len() as int] == list[a as int]);
}

proof fn lemma_kept_without_last(list: Seq<ProfileOptions>, p: ProfileOptions, m: nat)
    requires
        m <= list.len(),
        list.len() < usize::MAX,
    ensures
        kept_prefix(list.push(p), seq![list.len() as usize], m) == list.take(m as int),
    decreases m,
{
    let del = seq![list.len() as usize];
    if m > 0 {
        lemma_kept_without_last(list, p, (m - 1) as nat);
        if del.contains((m - 1) as usize) {
            let k = choose|k: int| 0 <= k < del.len() && del[k] == (m - 1) as usize;
            assert(del.len() == 1 && k == 0);
            assert(del[0] == list.len());
        }
        assert(list.take(m as int) == list.take(m - 1).push(list[m - 1]));
    }
}

/// Creating a profile and deleting it again gives back the profiles and the
/// active profile as they were (where the active position, if any, is that
/// of an existing profile).
pub proof fn lemma_add_then_delete(
    list: Seq<ProfileOptions>,
    active: Option<usize>,
    p: ProfileOptions,
)
    requires
        list.len() < usize::MAX,
        active matches Some(a) ==> a < list.len(),
    ensures
        ({
            let added = list.push(p);
            let added_active = if list.len() == 0 {
                Some(0usize)
            } else {
                active
            };
            let del = seq![list.len() as usize];
            &&& valid_deletion(del, added.len())
            &&& kept_profiles(added, del) == list
            &&& active_after(added_active, del) == active
        }),
{
    let added = list.push(p);
    let del = seq![list.len() as usize];
    lemma_kept_without_last(list, p, list.len());
    assert(list.take(list.len() as int) == list);
    if !del.contains(list.len() as usize) {
        assert(del[0] == list.len());
    }
    assert(kept_prefix(added, del, added.len()) == kept_prefix(added, del, list.len()));
    if list.len() == 0 {
        assert(del[0] == 0);
        assert(del.contains(0usize));
    } else {
        if let Some(a) = active {
            if del.contains(a) {
                let k = choose|k: int| 0 <= k < del.len() && del[k] == a;
                assert(del.len() == 1 && k == 0);
                assert(del[0] == list.len());
            }
            let e = Seq::<usize>::empty();
            assert(del.drop_last() =~= e);
            assert(deleted_below(e, a) == 0);
            assert(del.last() == list.len());
            assert(deleted_below(del, a) == 0);
        }
    }
}

/// What a deletion does to the active profile: where the active profile is
/// deleted, none is active afterwards; where one is active afterwards, it was
/// active before and was not deleted, and it is the same profile.
pub proof fn lemma_active_after_deletion(
    list: Seq<ProfileOptions>,
    del: Seq<usize>,
    active: Option<usize>,
)
    requires
        valid_deletion(del, list.len()),
        list.len() <= usize::MAX,
    ensures
        active is None ==> active_after(active, del) is None,
        active matches Some(a) && del.contains(a) ==> active_after(active, del) is None,
        active_after(active, del) matches Some(b) ==> (active matches Some(a) && !del.contains(a) && (a
            < list.len() ==> b < kept_profiles(list, del).len() && kept_profiles(list, del)[b as int]
            == list[a as int])),
{
    if let Some(a) = active {
        if !del.contains(a) && a < list.len() {
            lemma_deletion_keeps_active(list, del, a);
        }
    }
}

impl ProfileConfig {
    /// Removes the profiles at `indices` (increasing, in range). The others
    /// keep their order; the active profile stays active where it is kept
    /// (at its new position) and none is active where it is removed. Returns
    /// the removed profiles in the order of `indices`.
    pub fn delete_positions(&mut self, indices: &Vec<usize>) -> (deleted: Vec<DeletedProfile>)
        requires
            valid_deletion(indices@, old(self).list@.len()),
        ensures
            final(self).list@ == kept_profiles(old(self).list@, indices@),
            final(self).active == active_after(old(self).active, indices@),
            old(self).active matches Some(a) && indices@.contains(a) ==> final(self).active is None,
            final(self).active matches Some(b) ==> (old(self).active matches Some(a) && !indices@.contains(
                a,
            ) && (a < old(self).list@.len() ==> b < final(self).list@.len() && final(self).list@[b as int]
                == old(self).list@[a as int])),
            deleted@.len() == indices@.len(),
            forall|k: int|
                0 <= k < deleted@.len() ==> (#[trigger] deleted@[k]).name
                    == old(self).list@[indices@[k] as int].name && deleted@[k].was_active == (old(
                    self,
                ).active == Some(indices@[k])),
    {
        let ghost old_list = self.list@;
        let ghost del = indices@;
        let mut rest: Vec<ProfileOptions> = Vec::new();
        std::mem::swap(&mut rest, &mut self.list);
        let n = rest.len();
        let nd = indices.len();
        let mut deleted: Vec<DeletedProfile> = Vec::new();
        let mut p: usize = 0;
        let mut i: usize = 0;
        while i < n
            invariant
                i <= n == old_list.len(),
                p <= nd == del.len(),
                del == indices@,
                valid_deletion(del, old_list.len()),
                rest@ == old_list.skip(i as int),
                self.list@ == kept_prefix(old_list, del, i as nat),
                self.active == old(self).active,
                old_list == old(self).list@,
                forall|k: int| 0 <= k < p ==> del[k] < i,
                forall|k: int| p <= k < del.len() ==> del[k] >= i,
                deleted@.len() == p,
                forall|k: int|
                    0 <= k < p ==> (#[trigger] deleted@[k]).name == old_list[del[k] as int].name
                        && deleted@[k].was_active == (old(self).active == Some(del[k])),
            decreases n - i,
        {
            assert(rest@[0] == old_list[i as int]);
            let x = rest.remove(0);
            assert(rest@ == old_list.skip(i + 1));
            let hit = p < nd && indices[p] == i;
            proof {
                if del.contains(i) {
                    let k = choose|k: int| 0 <= k < del.len() && del[k] == i;
                    if k > p {
                        assert(del[p as int] < del[k]);
                    }
                }
                if hit {
                    assert(del[p as int] == i);
                }
                assert(hit == del.contains(i));
            }
            if hit {
                let was_active = self.is_active(i);
                let ProfileOptions { name, .. } = x;
                deleted.push(DeletedProfile { name, was_active });
                p = p + 1;
            } else {
                self.list.push(x);
            }
            i = i + 1;
            proof {
                assert forall|k: int| p <= k < del.len() implies del[k] >= i by {
                    if hit && k > p - 1 {
                        assert(del[p - 1] < del[k]);
                    }
                }
            }
        }
        proof {
            if p < nd {
                assert(del[p as int] < n);
            }
        }
        let new_active = match self.active {
            None => None,
            Some(a) => {
                let mut count: usize = 0;
                let mut found = false;
                let mut k: usize = 0;
                while k < nd
                    invariant
                        k <= nd == del.len(),
                        del == indices@,
                        valid_deletion(del, old_list.len()),
                        count == deleted_below(del.take(k as int), a),
                        found == del.take(k as int).contains(a),
                    decreases nd - k,
                {
                    let d = indices[k];
                    proof {
                        let t = del.take(k + 1);
                        assert(t.drop_last() == del.take(k as int));
                        assert(t.last() == d);
                        lemma_deleted_below_bound(del.take(k as int), a);
                        if del.take(k as int).contains(a) {
                            let j = choose|j: int| 0 <= j < k && del.take(k as int)[j] == a;
                            assert(t[j] == a);
                        }
                        if t.contains(a) {
                            let j = choose|j: int| 0 <= j <= k && t[j] == a;
                            if j < k {
                                assert(del.take(k as int)[j] == a);
                            }
                        }
                        if d == a {
                            assert(t[k as int] == a);
                        }
                    }
                    if d == a {
                        found = true;
                    }
                    if d < a {
                        count = count + 1;
                    }
                    k = k + 1;
                }
                proof {
                    assert(del.take(nd as int) == del);
                    lemma_deleted_below_bound(del, a);
                }
                if found {
                    None
                } else {
                    Some(a - count)
                }
            },
        };
        self.active = new_active;
        proof {
            assert(old_list.len() <= usize::MAX);
            lemma_active_after_deletion(old_list, del, old(self).active);
        }
        deleted
    }
}

} // verus!
