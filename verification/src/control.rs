//! Handing the choice of mods over to another plugin.
//!
//! A plugin such as an online mode can take control of the mod list before
//! the merge starts: the mods on the SD card are then left out (unless it asks
//! for them), and only what it adds is merged. The merge waits until the
//! owner commits its list, releases control, or runs out of time.
//!
//! This module holds the state and its rules; whoever embeds it keeps one
//! `Control` behind a lock, draws the owners' tokens and keeps the time.

use vstd::prelude::*;

use crate::options::{group_lookup, insert_group, strings_view, OptionMap, SpecGroup};
use crate::text::{chars_of, copy_string, string_of};

verus! {

/// Version of the `tkm_*` C API. Bumped on incompatible changes.
pub const API_VERSION: u32 = 1;

#[derive(Debug, Clone, Copy, PartialEq, Eq, Structural)]
pub enum Phase {
    /// Mods can still be chosen.
    Waiting,
    Merging,
    /// Merged files are being served.
    Done,
    /// Nothing is served (merge failed, or disabled).
    Failed,
}

impl Phase {
    /// The number the C API uses for the phase.
    pub fn code(self) -> (r: i32)
        ensures
            r == match self {
                Phase::Waiting => 0int,
                Phase::Merging => 1,
                Phase::Done => 2,
                Phase::Failed => 3,
            },
    {
        match self {
            Phase::Waiting => 0,
            Phase::Merging => 1,
            Phase::Done => 2,
            Phase::Failed => 3,
        }
    }
}

/// The plugin that has control.
pub struct Owner {
    pub name: String,
    pub token: u64,
    pub timeout_ms: u32,
}

/// A mod a plugin added.
pub struct ApiMod {
    pub path: String,
    pub name: Option<String>,
    pub options: OptionMap,
}

/// Who chooses the mods, and what they chose so far.
pub struct Control {
    pub owner: Option<Owner>,
    pub committed: bool,
    pub local_mods: bool,
    pub mods: Vec<ApiMod>,
    pub merged_dir: Option<String>,
    pub phase: Phase,
    pub served: u32,
    /// Who waits for the end of the merge, in the order they asked: the
    /// callback (as the host numbers it) and its user value.
    pub waiting: Vec<(usize, usize)>,
}

pub type ApiModView = (Seq<char>, Option<Seq<char>>, Seq<SpecGroup>);

pub struct ControlView {
    /// Name, token and time allowed of the owner.
    pub owner: Option<(Seq<char>, u64, u32)>,
    pub committed: bool,
    pub local_mods: bool,
    pub mods: Seq<ApiModView>,
    pub merged_dir: Option<Seq<char>>,
    pub phase: Phase,
    pub served: u32,
    pub waiting: Seq<(usize, usize)>,
}

pub open spec fn api_mod_view(m: ApiMod) -> ApiModView {
    (
        m.path@,
        match m.name {
            Some(n) => Some(n@),
            None => None,
        },
        m.options@,
    )
}

pub open spec fn api_mods_view(v: Seq<ApiMod>) -> Seq<ApiModView> {
    v.map_values(|m: ApiMod| api_mod_view(m))
}

impl View for Control {
    type V = ControlView;

    open spec fn view(&self) -> ControlView {
        ControlView {
            owner: match self.owner {
                Some(o) => Some((o.name@, o.token, o.timeout_ms)),
                None => None,
            },
            committed: self.committed,
            local_mods: self.local_mods,
            mods: api_mods_view(self.mods@),
            merged_dir: match self.merged_dir {
                Some(d) => Some(d@),
                None => None,
            },
            phase: self.phase,
            served: self.served,
            waiting: self.waiting@,
        }
    }
}

/// Nobody has control yet: the SD card's mods are merged.
pub open spec fn initial() -> ControlView {
    ControlView {
        owner: None,
        committed: false,
        local_mods: true,
        mods: Seq::empty(),
        merged_dir: None,
        phase: Phase::Waiting,
        served: 0,
        waiting: Seq::empty(),
    }
}

/// The token of the owner, if there is one.
pub open spec fn owner_token(s: ControlView) -> u64 {
    match s.owner {
        Some(o) => o.1,
        None => 0,
    }
}

/// Whether `token` belongs to the owner while mods can still be changed.
pub open spec fn owns(s: ControlView, token: u64) -> bool {
    &&& s.phase == Phase::Waiting
    &&& token != 0
    &&& s.owner is Some
    &&& owner_token(s) == token
}

pub open spec fn taken(s: ControlView, owner: Seq<char>, token: u64, timeout_ms: u32) -> ControlView {
    ControlView {
        owner: Some((owner, token, timeout_ms)),
        committed: false,
        local_mods: false,
        mods: Seq::empty(),
        ..s
    }
}

pub open spec fn released(s: ControlView) -> ControlView {
    ControlView { owner: None, committed: false, local_mods: true, mods: Seq::empty(), merged_dir: None, ..s }
}

pub open spec fn with_local_mods(s: ControlView, enabled: bool) -> ControlView {
    ControlView { local_mods: enabled, ..s }
}

pub open spec fn cleared(s: ControlView) -> ControlView {
    ControlView { mods: Seq::empty(), ..s }
}

pub open spec fn with_mod(s: ControlView, path: Seq<char>, name: Option<Seq<char>>) -> ControlView {
    ControlView { mods: s.mods.push((path, name, Seq::empty())), ..s }
}

pub open spec fn with_selection(s: ControlView, index: int, group: Seq<char>, option: Seq<char>) -> ControlView {
    ControlView {
        mods: s.mods.update(index, (s.mods[index].0, s.mods[index].1, with_option(s.mods[index].2, group, option))),
        ..s
    }
}

pub open spec fn with_merged_dir(s: ControlView, dir: Seq<char>) -> ControlView {
    ControlView { merged_dir: Some(dir), ..s }
}

pub open spec fn committed(s: ControlView) -> ControlView {
    ControlView { committed: true, ..s }
}

pub open spec fn finished(s: ControlView, phase: Phase, served: u32) -> ControlView {
    ControlView { phase, served, ..s }
}

pub open spec fn opt_view(name: Option<&str>) -> Option<Seq<char>> {
    match name {
        Some(n) => Some(n@),
        None => None,
    }
}

impl Control {
    pub fn new() -> (c: Control)
        ensures
            c@ == initial(),
    {
        let c = Control {
            owner: None,
            committed: false,
            local_mods: true,
            mods: Vec::new(),
            merged_dir: None,
            phase: Phase::Waiting,
            served: 0,
            waiting: Vec::new(),
        };
        assert(api_mods_view(c.mods@) =~= Seq::<ApiModView>::empty());
        c
    }

    /// Whether `token` is the owner's while mods can still be chosen.
    pub fn owned_by(&self, token: u64) -> (r: bool)
        ensures
            r == owns(self@, token),
    {
        match &self.owner {
            Some(o) => self.phase == Phase::Waiting && token != 0 && o.token == token,
            None => false,
        }
    }
}

/// The token drawn from `seed` (what the clock and an address gave) and the
/// number of times control was taken: the seed turned left by 17 bits, mixed
/// with the counter, made odd, so never 0.
pub open spec fn token_spec(seed: u64, counter: u64) -> u64 {
    (((seed << 17u64) | (seed >> 47u64)) ^ 0x9E37_79B9_7F4A_7C15u64.wrapping_mul(counter)) | 1u64
}

fn draw_token(seed: u64, counter: u64) -> (t: u64)
    ensures
        t == token_spec(seed, counter),
        t % 2 == 1,
{
    let rotated = (seed << 17u64) | (seed >> 47u64);
    let mixed = rotated ^ 0x9E37_79B9_7F4A_7C15u64.wrapping_mul(counter);
    let t = mixed | 1u64;
    assert(t % 2 == 1) by (bit_vector)
        requires
            t == mixed | 1u64,
    ;
    t
}

/// Takes control of the mod list for `owner`, with a token drawn from
/// `seed` and `counter` (the how-many-th time control is taken). Returns the
/// token, odd and so never 0, or 0 when another plugin already has control
/// or the merge has started; then nothing changes.
pub fn take_control(state: &mut Control, owner: &str, seed: u64, counter: u64, timeout_ms: u32) -> (r: u64)
    ensures
        (old(state)@.phase == Phase::Waiting && old(state)@.owner is None) ==> r == token_spec(seed, counter)
            && r % 2 == 1,
        (old(state)@.phase == Phase::Waiting && old(state)@.owner is None) ==> final(state)@ == taken(
            old(state)@,
            owner@,
            r,
            timeout_ms,
        ),
        !(old(state)@.phase == Phase::Waiting && old(state)@.owner is None) ==> r == 0,
        !(old(state)@.phase == Phase::Waiting && old(state)@.owner is None) ==> final(state)@ == old(
            state,
        )@,
{
    if state.phase != Phase::Waiting || state.owner.is_some() {
        return 0;
    }
    let token = draw_token(seed, counter);
    state.owner = Some(Owner { name: string_of(chars_of(owner).as_slice()), token, timeout_ms });
    state.committed = false;
    state.local_mods = false;
    state.mods = Vec::new();
    assert(api_mods_view(state.mods@) =~= Seq::<ApiModView>::empty());
    token
}

/// Gives control back: the mods on the SD card are merged as usual.
pub fn release_control(state: &mut Control, token: u64) -> (r: bool)
    ensures
        r == owns(old(state)@, token),
        r ==> final(state)@ == released(old(state)@),
        !r ==> final(state)@ == old(state)@,
{
    if !state.owned_by(token) {
        return false;
    }
    state.owner = None;
    state.committed = false;
    state.local_mods = true;
    state.mods = Vec::new();
    state.merged_dir = None;
    assert(api_mods_view(state.mods@) =~= Seq::<ApiModView>::empty());
    true
}

/// Whether the SD card's mods are merged too.
pub fn set_local_mods_enabled(state: &mut Control, token: u64, enabled: bool) -> (r: bool)
    ensures
        r == owns(old(state)@, token),
        r ==> final(state)@ == with_local_mods(old(state)@, enabled),
        !r ==> final(state)@ == old(state)@,
{
    if !state.owned_by(token) {
        return false;
    }
    state.local_mods = enabled;
    true
}

/// Forgets the mods added so far.
pub fn clear_mods(state: &mut Control, token: u64) -> (r: bool)
    ensures
        r == owns(old(state)@, token),
        r ==> final(state)@ == cleared(old(state)@),
        !r ==> final(state)@ == old(state)@,
{
    if !state.owned_by(token) {
        return false;
    }
    state.mods = Vec::new();
    assert(api_mods_view(state.mods@) =~= Seq::<ApiModView>::empty());
    true
}

/// The index `add_mod` gives the mod added to a list of `n`: `n` as a 32-bit
/// number, wrapping past the largest.
pub open spec fn added_index(n: int) -> int {
    ((n + 1) as i32) - 1
}

/// Adds a mod (a `.tkcl`, a folder with `romfs`, or a romfs root). Mods merge
/// in the order they are added, above the SD card's mods. Returns its index,
/// or -1.
pub fn add_mod(state: &mut Control, token: u64, path: &str, name: Option<&str>) -> (r: i32)
    requires
        owns(old(state)@, token) ==> ((old(state)@.mods.len() + 1) as i32) != i32::MIN,
    ensures
        owns(old(state)@, token) ==> r == added_index(old(state)@.mods.len() as int) && final(state)@ == with_mod(
            old(state)@,
            path@,
            opt_view(name),
        ),
        !owns(old(state)@, token) ==> r == -1 && final(state)@ == old(state)@,
{
    if !state.owned_by(token) {
        return -1;
    }
    let name = match name {
        Some(n) => Some(string_of(chars_of(n).as_slice())),
        None => None,
    };
    let m = ApiMod { path: string_of(chars_of(path).as_slice()), name, options: OptionMap::new() };
    let ghost before = api_mods_view(state.mods@);
    state.mods.push(m);
    assert(api_mods_view(state.mods@) =~= before.push(api_mod_view(m)));
    let n = state.mods.len() as i32;
    n - 1
}

/// The options of `group` once `option` is selected in it too.
pub open spec fn with_option(options: Seq<SpecGroup>, group: Seq<char>, option: Seq<char>) -> Seq<SpecGroup> {
    insert_group(
        options,
        group,
        match group_lookup(options, group) {
            Some(v) => v,
            None => Seq::empty(),
        }.push(option),
    )
}

/// Selects an option of a package added with `add_mod`. Groups not
/// mentioned keep the package's defaults.
pub fn select_option(state: &mut Control, token: u64, index: i32, group: &str, option: &str) -> (r: bool)
    ensures
        r == (owns(old(state)@, token) && 0 <= index < old(state)@.mods.len()),
        r ==> final(state)@ == with_selection(old(state)@, index as int, group@, option@),
        !r ==> final(state)@ == old(state)@,
{
    if !state.owned_by(token) || index < 0 || index as usize >= state.mods.len() {
        return false;
    }
    let i = index as usize;
    let mut selected: Vec<String> = match state.mods[i].options.get(group) {
        Some(v) => crate::options::copy_strings(v),
        None => Vec::new(),
    };
    selected.push(string_of(chars_of(option).as_slice()));
    let ghost before = state@;
    let ghost old_sel = match group_lookup(state.mods@[i as int].options@, group@) {
        Some(v) => v,
        None => Seq::empty(),
    };
    assert(strings_view(selected@) =~= old_sel.push(option@));
    let mut m = state.mods.remove(i);
    m.options.insert(string_of(chars_of(group).as_slice()), selected);
    state.mods.insert(i, m);
    assert(api_mods_view(state.mods@) =~= with_selection(before, i as int, group@, option@).mods);
    true
}

/// Where this owner's merge goes, so it does not overwrite the merge of the
/// SD card's mods.
pub fn set_merged_dir(state: &mut Control, token: u64, dir: &str) -> (r: bool)
    ensures
        r == owns(old(state)@, token),
        r ==> final(state)@ == with_merged_dir(old(state)@, dir@),
        !r ==> final(state)@ == old(state)@,
{
    if !state.owned_by(token) {
        return false;
    }
    state.merged_dir = Some(string_of(chars_of(dir).as_slice()));
    true
}

/// The mod list is final: the merge may start.
pub fn commit(state: &mut Control, token: u64) -> (r: bool)
    ensures
        r == owns(old(state)@, token),
        r ==> final(state)@ == committed(old(state)@),
        !r ==> final(state)@ == old(state)@,
{
    if !state.owned_by(token) {
        return false;
    }
    state.committed = true;
    true
}

pub fn phase(state: &Control) -> (r: Phase)
    ensures
        r == state@.phase,
{
    state.phase
}

pub fn served_files(state: &Control) -> (r: u32)
    ensures
        r == state@.served,
{
    state.served
}

/// `(callback, user)` waits in line for the end of the merge.
pub open spec fn waited(s: ControlView, callback: usize, user: usize) -> ControlView {
    ControlView { waiting: s.waiting.push((callback, user)), ..s }
}

/// The merge ended with `phase` and `served` files, and nobody waits any
/// more.
pub open spec fn told(s: ControlView, phase: Phase, served: u32) -> ControlView {
    ControlView { phase, served, waiting: Seq::empty(), ..s }
}

/// Whether the merge is over: its files served, or none.
pub open spec fn over(phase: Phase) -> bool {
    phase == Phase::Done || phase == Phase::Failed
}

/// Asks to be told when the merge is over: once it is, the phase and the
/// count of served files come back for the host to call `callback` with
/// `user` right away; before, the pair waits in line and nothing comes
/// back.
pub fn on_merged(state: &mut Control, callback: usize, user: usize) -> (r: Option<(Phase, u32)>)
    ensures
        over(old(state)@.phase) ==> r == Some((old(state)@.phase, old(state)@.served)),
        over(old(state)@.phase) ==> final(state)@ == old(state)@,
        !over(old(state)@.phase) ==> r is None,
        !over(old(state)@.phase) ==> final(state)@ == waited(old(state)@, callback, user),
{
    match state.phase {
        Phase::Done | Phase::Failed => Some((state.phase, state.served)),
        _ => {
            state.waiting.push((callback, user));
            None
        },
    }
}

/// Records the end of the merge, and hands out, in the order they asked,
/// those waiting for it: each is told once, and no later end tells them
/// again.
pub fn finish(state: &mut Control, phase: Phase, served: u32) -> (r: Vec<(usize, usize)>)
    ensures
        final(state)@ == told(old(state)@, phase, served),
        r@ == old(state)@.waiting,
{
    state.phase = phase;
    state.served = served;
    let mut out: Vec<(usize, usize)> = Vec::new();
    std::mem::swap(&mut out, &mut state.waiting);
    out
}

/// Whoever waits is told once: right after an end nobody waits any more,
/// so a later end tells nobody again, and once the merge is over nobody is
/// put in line.
pub proof fn lemma_told_once(s: ControlView, phase: Phase, served: u32)
    ensures
        told(s, phase, served).waiting.len() == 0,
        over(phase) ==> over(told(s, phase, served).phase),
{
}

/// Records that the merge starts: mods can no longer change.
pub fn start_merging(state: &mut Control)
    ensures
        final(state)@ == finished(old(state)@, Phase::Merging, old(state)@.served),
{
    state.phase = Phase::Merging;
}

/// Whether the merge can stop waiting: nobody has control, the owner
/// committed, or its time (and the configured limit) ran out.
pub open spec fn settled_spec(s: ControlView, elapsed_ms: u64, limit_ms: u32) -> bool {
    match s.owner {
        None => true,
        Some(o) => s.committed || elapsed_ms >= (if o.2 < limit_ms {
            o.2
        } else {
            limit_ms
        }),
    }
}

pub fn settled(state: &Control, elapsed_ms: u64, limit_ms: u32) -> (r: bool)
    ensures
        r == settled_spec(state@, elapsed_ms, limit_ms),
{
    match &state.owner {
        None => true,
        Some(o) => {
            let timeout = if o.timeout_ms < limit_ms {
                o.timeout_ms
            } else {
                limit_ms
            };
            state.committed || elapsed_ms >= timeout as u64
        },
    }
}

/// The owner's name with every character but ASCII letters and digits made `_`.
pub open spec fn safe_name(name: Seq<char>) -> Seq<char> {
    name.map_values(|c: char| if crate::text::is_alnum(c) { c } else { '_' })
}

/// `dir` without the slashes it ends with.
pub open spec fn trim_end_slashes(dir: Seq<char>) -> Seq<char>
    decreases dir.len(),
{
    if dir.len() > 0 && dir.last() == '/' {
        trim_end_slashes(dir.drop_last())
    } else {
        dir
    }
}

/// Where the merge goes: the folder the owner chose, else one named after it
/// next to the usual folder, else the usual folder.
pub open spec fn merged_dir_spec(s: ControlView, configured: Seq<char>) -> Seq<char> {
    match s.merged_dir {
        Some(d) => d,
        None => match s.owner {
            Some(o) => trim_end_slashes(configured) + seq!['-'] + safe_name(o.0),
            None => configured,
        },
    }
}

pub fn merged_dir_for(state: &Control, configured: &str) -> (r: String)
    ensures
        r@ == merged_dir_spec(state@, configured@),
{
    match &state.merged_dir {
        Some(d) => {
            return copy_string(d);
        },
        None => {},
    }
    match &state.owner {
        Some(o) => {
            let c = chars_of(configured);
            let mut end = c.len();
            assert(c@.take(end as int) =~= c@);
            while end > 0 && c[end - 1] == '/'
                invariant
                    end <= c@.len(),
                    trim_end_slashes(c@) == trim_end_slashes(c@.take(end as int)),
                decreases end,
            {
                assert(c@.take(end as int).drop_last() =~= c@.take(end - 1));
                end = end - 1;
            }
            let mut out: Vec<char> = crate::text::slice_of(c.as_slice(), 0, end);
            out.push('-');
            let n = chars_of(o.name.as_str());
            let ghost head = out@;
            let mut i: usize = 0;
            while i < n.len()
                invariant
                    i <= n@.len(),
                    out@ == head + safe_name(n@.take(i as int)),
                decreases n.len() - i,
            {
                let ch = n[i];
                out.push(if crate::text::is_alnum_char(ch) { ch } else { '_' });
                assert(out@ =~= head + safe_name(n@.take(i + 1)));
                i = i + 1;
            }
            assert(n@.take(n@.len() as int) =~= n@);
            return string_of(out.as_slice());
        },
        None => {
            return string_of(chars_of(configured).as_slice());
        },
    }
}

/// One owner at a time: while a plugin has control, another cannot take it,
/// and only the owner's token changes the mod list.
pub proof fn lemma_one_owner_at_a_time(s: ControlView, token: u64, other: u64)
    requires
        s.owner is Some,
        owner_token(s) == token,
        other != token,
    ensures
        !(s.phase == Phase::Waiting && s.owner is None),
        !owns(s, other),
{
}

/// The spec of the `index`th mod a plugin added, found to be of `kind` with
/// `content` to merge: named as the plugin named it, else after `file_name`
/// (the last part of its path); above every mod of the SD card, later ones
/// winning; with the options the plugin chose and `plugins`, those its
/// folder holds.
pub fn api_mod_spec(
    m: &ApiMod,
    index: usize,
    kind: crate::mods::ModKind,
    content: String,
    file_name: &str,
    plugins: Vec<String>,
) -> (r: crate::mods::ModSpec)
    requires
        index <= 0x4000_0000,
    ensures
        r@.name == match m.name {
            Some(n) => n@,
            None => file_name@,
        },
        r@.kind == kind,
        r@.path == content@,
        r@.priority == 0x3fff_ffff + index,
        r@.options == m.options@,
        r@.plugins == crate::options::strings_view(plugins@),
{
    let name = match &m.name {
        Some(n) => copy_string(n),
        None => crate::config::owned(file_name),
    };
    crate::mods::ModSpec {
        name,
        kind,
        path: content,
        priority: 0x3fff_ffff + index as i32,
        options: m.options.copy(),
        plugins,
    }
}

/// The profile a plan chosen through the API is for: the name of the plugin
/// that has control, else `local_profile`.
pub fn plan_profile(state: &Control, local_profile: &str) -> (r: String)
    ensures
        r@ == match state@.owner {
            Some(o) => o.0,
            None => local_profile@,
        },
{
    match &state.owner {
        Some(o) => copy_string(&o.name),
        None => crate::config::owned(local_profile),
    }
}

/// The folder merges of a plugin's choosing go to: the configured folder
/// without its trailing slashes, a dash, and the plugin's name with every
/// character that is no ASCII letter or digit made an underscore.
pub proof fn lemma_owner_folder(dir: Seq<char>, name: Seq<char>)
    ensures
        safe_name(name).len() == name.len(),
        forall|i: int| 0 <= i < name.len() ==> (crate::text::is_alnum(name[i]) ==> #[trigger] safe_name(name)[i]
            == name[i]) && (!crate::text::is_alnum(name[i]) ==> safe_name(name)[i] == '_'),
        trim_end_slashes(dir).len() <= dir.len(),
        dir.take(trim_end_slashes(dir).len() as int) == trim_end_slashes(dir),
        trim_end_slashes(dir).len() == 0 || trim_end_slashes(dir).last() != '/',
        forall|i: int| trim_end_slashes(dir).len() <= i < dir.len() ==> #[trigger] dir[i] == '/',
    decreases dir.len(),
{
    if dir.len() > 0 && dir.last() == '/' {
        lemma_owner_folder(dir.drop_last(), name);
        let t = trim_end_slashes(dir);
        assert(dir.drop_last().take(t.len() as int) =~= dir.take(t.len() as int));
        assert forall|i: int| t.len() <= i < dir.len() implies #[trigger] dir[i] == '/' by {
            if i < dir.len() - 1 {
                assert(dir.drop_last()[i] == dir[i]);
            }
        }
    } else {
        assert(dir.take(dir.len() as int) =~= dir);
    }
}

} // verus!
