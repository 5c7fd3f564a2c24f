use vstd::prelude::*;

use core::cmp::Ordering;

use vstd::string::StrSliceExecFns;
use vstd::string::StringExecFns;

use crate::config::SortingConfig;
use crate::state::ModConfigView;
use crate::state::ModOrGroup;
use crate::text::dec_chars;
use crate::text::u64_to_string;

verus! {

/// Visual theme choice kept in the configuration.
#[derive(Debug, Clone, Copy, PartialEq, Eq, Structural)]
pub enum GuiTheme {
    Light,
    Dark,
}

/// The sort key the user picked for the mod list.
#[derive(Debug, Clone, Copy, PartialEq, Eq, Structural)]
pub enum SortBy {
    Enabled,
    Name,
    Priority,
    Provider,
    RequiredStatus,
    ApprovalCategory,
}

pub open spec fn spec_sort_by_label(s: SortBy) -> Seq<char> {
    match s {
        SortBy::Enabled => "Enabled"@,
        SortBy::Name => "Name"@,
        SortBy::Priority => "Priority"@,
        SortBy::Provider => "Provider"@,
        SortBy::RequiredStatus => "Is Required"@,
        SortBy::ApprovalCategory => "Approval"@,
    }
}

impl SortBy {
    /// The label shown for this sort key.
    pub fn as_str(&self) -> (r: &'static str)
        ensures
            r@ == spec_sort_by_label(*self),
    {
        match self {
            SortBy::Enabled => "Enabled",
            SortBy::Name => "Name",
            SortBy::Priority => "Priority",
            SortBy::Provider => "Provider",
            SortBy::RequiredStatus => "Is Required",
            SortBy::ApprovalCategory => "Approval",
        }
    }
}

/// Progress of one mod fetch, as reported to the interface.
#[derive(Debug, Clone, Copy, PartialEq, Eq, Structural)]
pub enum SpecFetchProgress {
    Progress { progress: u64, size: u64 },
    Complete,
}

/// Progress of a self-update download.
#[derive(Debug, Clone, Copy, PartialEq, Eq, Structural)]
pub enum SelfUpdateProgress {
    Pending,
    Progress { progress: u64, size: u64 },
    Complete,
}

// ---------------------------------------------------------------------------
// The outcome banner: what the last action did, and how long ago.
// ---------------------------------------------------------------------------

/// Outcome of the last user action.
#[derive(Debug)]
pub enum LastActionStatus {
    Success(String),
    Failure(String),
}

/// The last action's outcome together with when it finished, in seconds of
/// wall-clock time.
#[derive(Debug)]
pub struct LastAction {
    pub timestamp: u64,
    pub status: LastActionStatus,
}

/// Relies on std::time::SystemTime::now for the seconds since the epoch;
/// nothing is assumed of the value.
#[verifier::external_body]
fn now_unix_secs() -> u64 {
    match std::time::SystemTime::now().duration_since(std::time::UNIX_EPOCH) {
        Ok(d) => d.as_secs(),
        Err(_) => 0,
    }
}

/// The banner text for an action that finished `elapsed` seconds ago.
pub open spec fn spec_timeago(elapsed: u64) -> Seq<char> {
    if elapsed < 60 {
        dec_chars(elapsed as nat) + "s ago"@
    } else if elapsed < 3600 {
        dec_chars((elapsed / 60) as nat) + "m ago"@
    } else {
        ">1h ago"@
    }
}

/// Renders how long ago an action finished: seconds under a minute, minutes
/// under an hour, and a fixed text beyond.
pub fn timeago_text(elapsed: u64) -> (r: String)
    ensures
        r@ == spec_timeago(elapsed),
{
    if elapsed < 60 {
        u64_to_string(elapsed).concat("s ago")
    } else if elapsed < 3600 {
        u64_to_string(elapsed / 60).concat("m ago")
    } else {
        ">1h ago".to_owned()
    }
}

impl LastAction {
    /// A success outcome stamped with the current time.
    pub fn success(msg: String) -> (r: Self)
        ensures
            r.status == LastActionStatus::Success(msg),
    {
        LastAction { timestamp: now_unix_secs(), status: LastActionStatus::Success(msg) }
    }

    /// A failure outcome stamped with the current time.
    pub fn failure(msg: String) -> (r: Self)
        ensures
            r.status == LastActionStatus::Failure(msg),
    {
        LastAction { timestamp: now_unix_secs(), status: LastActionStatus::Failure(msg) }
    }

    /// How long ago the action finished, as banner text. The clock decides
    /// the number; the text always has the banner shape.
    pub fn timeago(&self) -> (r: String)
        ensures
            exists|elapsed: u64| r@ == #[trigger] spec_timeago(elapsed),
    {
        let now = now_unix_secs();
        let elapsed = if now >= self.timestamp {
            now - self.timestamp
        } else {
            0
        };
        let r = timeago_text(elapsed);
        proof {
            assert(r@ == spec_timeago(elapsed));
        }
        r
    }
}

// ---------------------------------------------------------------------------
// The sort comparator: a total order over individual mod rows and their
// optional externally resolved metadata, for presentation only. It never
// touches the persisted row order.
// ---------------------------------------------------------------------------

/// The tag block of externally resolved metadata: the approval category and
/// the required status, each as the provider's rank number.
#[derive(Debug, Clone, Copy, PartialEq, Eq, Structural)]
pub struct ModioTags {
    pub approval_status: u32,
    pub required_status: u32,
}

/// Mathematical value of a `ModMetadata`.
#[verifier::ext_equal]
pub struct ModMetadataView {
    pub name: Seq<char>,
    pub provider: Seq<char>,
    pub modio_tags: Option<ModioTags>,
}

/// Externally resolved metadata for one mod, as the comparator reads it: the
/// display name, the provider kind, and the optional tag block.
#[derive(Debug)]
pub struct ModMetadata {
    pub name: String,
    pub provider: String,
    pub modio_tags: Option<ModioTags>,
}

impl View for ModMetadata {
    type V = ModMetadataView;

    open spec fn view(&self) -> ModMetadataView {
        ModMetadataView { name: self.name@, provider: self.provider@, modio_tags: self.modio_tags }
    }
}

pub open spec fn meta_view(m: Option<&ModMetadata>) -> Option<ModMetadataView> {
    match m {
        Some(x) => Some(x@),
        None => None,
    }
}

/// Relies on str::to_lowercase of std: the lowercase form depends on the
/// characters alone.
pub uninterp spec fn case_folded(s: Seq<char>) -> Seq<char>;

/// Relies on str::to_lowercase of std, naming its result `case_folded`.
#[verifier::external_body]
fn fold_case(s: &str) -> (r: String)
    ensures
        r@ == case_folded(s@),
{
    s.to_lowercase()
}

pub open spec fn ord_reverse(o: Ordering) -> Ordering {
    match o {
        Ordering::Less => Ordering::Greater,
        Ordering::Equal => Ordering::Equal,
        Ordering::Greater => Ordering::Less,
    }
}

pub open spec fn ord_then(a: Ordering, b: Ordering) -> Ordering {
    if a == Ordering::Equal {
        b
    } else {
        a
    }
}

pub open spec fn cmp_int(a: int, b: int) -> Ordering {
    if a < b {
        Ordering::Less
    } else if a == b {
        Ordering::Equal
    } else {
        Ordering::Greater
    }
}

pub open spec fn cmp_bool(a: bool, b: bool) -> Ordering {
    match (a, b) {
        (false, true) => Ordering::Less,
        (true, false) => Ordering::Greater,
        (false, false) => Ordering::Equal,
        (true, true) => Ordering::Equal,
    }
}

/// Order over character sequences by code point, shortest prefix first: the
/// order `str` comparison gives.
pub open spec fn cmp_chars(a: Seq<char>, b: Seq<char>) -> Ordering
    decreases a.len(),
{
    if a.len() == 0 && b.len() == 0 {
        Ordering::Equal
    } else if a.len() == 0 {
        Ordering::Less
    } else if b.len() == 0 {
        Ordering::Greater
    } else if a[0] == b[0] {
        cmp_chars(a.subrange(1, a.len() as int), b.subrange(1, b.len() as int))
    } else if (a[0] as u32) < (b[0] as u32) {
        Ordering::Less
    } else {
        Ordering::Greater
    }
}

pub open spec fn cmp_opt_chars(a: Option<Seq<char>>, b: Option<Seq<char>>) -> Ordering {
    match (a, b) {
        (None, None) => Ordering::Equal,
        (None, Some(y)) => Ordering::Less,
        (Some(x), None) => Ordering::Greater,
        (Some(x), Some(y)) => cmp_chars(x, y),
    }
}

pub open spec fn cmp_opt_int(a: Option<int>, b: Option<int>) -> Ordering {
    match (a, b) {
        (None, None) => Ordering::Equal,
        (None, Some(y)) => Ordering::Less,
        (Some(x), None) => Ordering::Greater,
        (Some(x), Some(y)) => cmp_int(x, y),
    }
}

/// As `cmp_opt_int`, but present values compare in reverse: the order of
/// optional reversed numbers.
pub open spec fn cmp_opt_int_rev(a: Option<int>, b: Option<int>) -> Ordering {
    match (a, b) {
        (None, None) => Ordering::Equal,
        (None, Some(y)) => Ordering::Less,
        (Some(x), None) => Ordering::Greater,
        (Some(x), Some(y)) => cmp_int(y, x),
    }
}

/// The name key order: case-folded display name when metadata resolved
/// (unresolved sorts before resolved), the raw locator as tie-break.
pub open spec fn spec_name_order(
    a: ModConfigView,
    am: Option<ModMetadataView>,
    b: ModConfigView,
    bm: Option<ModMetadataView>,
) -> Ordering {
    let ka = match am {
        Some(m) => Some(case_folded(m.name)),
        None => None,
    };
    let kb = match bm {
        Some(m) => Some(case_folded(m.name)),
        None => None,
    };
    ord_then(cmp_opt_chars(ka, kb), cmp_chars(a.url, b.url))
}

pub open spec fn spec_provider_key(m: Option<ModMetadataView>) -> Option<Seq<char>> {
    match m {
        Some(x) => Some(x.provider),
        None => None,
    }
}

pub open spec fn spec_approval_key(m: Option<ModMetadataView>) -> Option<int> {
    match m {
        Some(x) => match x.modio_tags {
            Some(t) => Some(t.approval_status as int),
            None => None,
        },
        None => None,
    }
}

pub open spec fn spec_required_key(m: Option<ModMetadataView>) -> Option<int> {
    match m {
        Some(x) => match x.modio_tags {
            Some(t) => Some(t.required_status as int),
            None => None,
        },
        None => None,
    }
}

/// The comparator's full order: the chosen key first, reversed when the
/// direction asks for it, and the name order as the tie-break for every key
/// but the name itself.
pub open spec fn spec_sort_cmp(
    cat: SortBy,
    ascending: bool,
    a: ModConfigView,
    am: Option<ModMetadataView>,
    b: ModConfigView,
    bm: Option<ModMetadataView>,
) -> Ordering {
    let name_order = spec_name_order(a, am, b, bm);
    let primary = match cat {
        SortBy::Enabled => cmp_bool(b.enabled, a.enabled),
        SortBy::Name => name_order,
        SortBy::Priority => cmp_int(a.priority, b.priority),
        SortBy::Provider => cmp_opt_chars(spec_provider_key(am), spec_provider_key(bm)),
        SortBy::RequiredStatus => cmp_opt_int_rev(spec_required_key(am), spec_required_key(bm)),
        SortBy::ApprovalCategory => cmp_opt_int(spec_approval_key(am), spec_approval_key(bm)),
    };
    let directed = if ascending {
        ord_reverse(primary)
    } else {
        primary
    };
    if cat != SortBy::Name {
        ord_then(directed, name_order)
    } else {
        directed
    }
}

/// Compares two strings by code point.
fn cmp_strs(a: &str, b: &str) -> (r: Ordering)
    ensures
        r == cmp_chars(a@, b@),
{
    let la = a.unicode_len();
    let lb = b.unicode_len();
    let mut i: usize = 0;
    while i < la && i < lb
        invariant
            i <= la,
            i <= lb,
            la == a@.len(),
            lb == b@.len(),
            forall|j: int| 0 <= j < i ==> a@[j] == b@[j],
        decreases la - i,
    {
        let ca = a.get_char(i);
        let cb = b.get_char(i);
        if ca != cb {
            proof {
                lemma_cmp_chars_skip(a@, b@, i as int);
            }
            if (ca as u32) < (cb as u32) {
                return Ordering::Less;
            } else {
                return Ordering::Greater;
            }
        }
        i += 1;
    }
    proof {
        lemma_cmp_chars_skip(a@, b@, i as int);
    }
    if la == lb {
        Ordering::Equal
    } else if la < lb {
        Ordering::Less
    } else {
        Ordering::Greater
    }
}

/// When two sequences agree on a prefix, their order is the order of what
/// follows it.
proof fn lemma_cmp_chars_skip(a: Seq<char>, b: Seq<char>, i: int)
    requires
        0 <= i <= a.len(),
        i <= b.len(),
        forall|j: int| 0 <= j < i ==> a[j] == b[j],
    ensures
        cmp_chars(a, b) == cmp_chars(a.skip(i), b.skip(i)),
    decreases i,
{
    if i > 0 {
        let ta = a.subrange(1, a.len() as int);
        let tb = b.subrange(1, b.len() as int);
        assert(cmp_chars(a, b) == cmp_chars(ta, tb));
        assert forall|j: int| 0 <= j < i - 1 implies ta[j] == tb[j] by {
            assert(ta[j] == a[j + 1]);
            assert(tb[j] == b[j + 1]);
        }
        lemma_cmp_chars_skip(ta, tb, i - 1);
        assert(ta.skip(i - 1) =~= a.skip(i));
        assert(tb.skip(i - 1) =~= b.skip(i));
    } else {
        assert(a.skip(0) =~= a);
        assert(b.skip(0) =~= b);
    }
}

fn ord_reverse_exec(o: Ordering) -> (r: Ordering)
    ensures
        r == ord_reverse(o),
{
    match o {
        Ordering::Less => Ordering::Greater,
        Ordering::Equal => Ordering::Equal,
        Ordering::Greater => Ordering::Less,
    }
}

fn ord_then_exec(a: Ordering, b: Ordering) -> (r: Ordering)
    ensures
        r == ord_then(a, b),
{
    match a {
        Ordering::Equal => b,
        Ordering::Less => Ordering::Less,
        Ordering::Greater => Ordering::Greater,
    }
}

fn cmp_i32(a: i32, b: i32) -> (r: Ordering)
    ensures
        r == cmp_int(a as int, b as int),
{
    if a < b {
        Ordering::Less
    } else if a == b {
        Ordering::Equal
    } else {
        Ordering::Greater
    }
}

fn cmp_u32(a: u32, b: u32) -> (r: Ordering)
    ensures
        r == cmp_int(a as int, b as int),
{
    if a < b {
        Ordering::Less
    } else if a == b {
        Ordering::Equal
    } else {
        Ordering::Greater
    }
}

/// The display-name keys of both sides, case-folded when resolved.
fn name_keys(meta_a: Option<&ModMetadata>, meta_b: Option<&ModMetadata>) -> (r: (
    Option<String>,
    Option<String>,
))
    ensures
        ({
            let ka = match meta_view(meta_a) {
                Some(m) => Some(case_folded(m.name)),
                None => None::<Seq<char>>,
            };
            match r.0 {
                Some(sa) => Some(sa@) == ka,
                None => ka is None,
            }
        }),
        ({
            let kb = match meta_view(meta_b) {
                Some(m) => Some(case_folded(m.name)),
                None => None::<Seq<char>>,
            };
            match r.1 {
                Some(sb) => Some(sb@) == kb,
                None => kb is None,
            }
        }),
{
    let ka = match meta_a {
        Some(m) => Some(fold_case(m.name.as_str())),
        None => None,
    };
    let kb = match meta_b {
        Some(m) => Some(fold_case(m.name.as_str())),
        None => None,
    };
    (ka, kb)
}

/// The presentation order of two individual mod rows under the chosen sort
/// key and direction. The comparator is only defined over individual rows;
/// group rows are not sortable and the presentation layer keeps them apart.
pub fn sort_mods(
    config: &SortingConfig,
    a: &ModOrGroup,
    meta_a: Option<&ModMetadata>,
    b: &ModOrGroup,
    meta_b: Option<&ModMetadata>,
) -> (r: Ordering)
    requires
        a@ is Individual,
        b@ is Individual,
    ensures
        r == spec_sort_cmp(
            config.sort_category,
            config.is_ascending,
            a@->Individual_0,
            meta_view(meta_a),
            b@->Individual_0,
            meta_view(meta_b),
        ),
{
    let mc_a = match a {
        ModOrGroup::Individual(mc) => mc,
        ModOrGroup::Group { .. } => {
            proof {
                assert(false);
            }
            return Ordering::Equal;
        },
    };
    let mc_b = match b {
        ModOrGroup::Individual(mc) => mc,
        ModOrGroup::Group { .. } => {
            proof {
                assert(false);
            }
            return Ordering::Equal;
        },
    };
    let (ka, kb) = name_keys(meta_a, meta_b);
    let folded_cmp = match (&ka, &kb) {
        (None, None) => Ordering::Equal,
        (None, Some(y)) => Ordering::Less,
        (Some(x), None) => Ordering::Greater,
        (Some(x), Some(y)) => cmp_strs(x.as_str(), y.as_str()),
    };
    let name_order = ord_then_exec(folded_cmp, cmp_strs(mc_a.spec.url.as_str(), mc_b.spec.url.as_str()));
    let primary = match config.sort_category {
        SortBy::Enabled => {
            match (mc_b.enabled, mc_a.enabled) {
                (false, true) => Ordering::Less,
                (true, false) => Ordering::Greater,
                (false, false) => Ordering::Equal,
                (true, true) => Ordering::Equal,
            }
        },
        SortBy::Name => name_order,
        SortBy::Priority => cmp_i32(mc_a.priority, mc_b.priority),
        SortBy::Provider => {
            match (meta_a, meta_b) {
                (None, None) => Ordering::Equal,
                (None, Some(y)) => Ordering::Less,
                (Some(x), None) => Ordering::Greater,
                (Some(x), Some(y)) => cmp_strs(x.provider.as_str(), y.provider.as_str()),
            }
        },
        SortBy::RequiredStatus => {
            let ta = required_key(meta_a);
            let tb = required_key(meta_b);
            match (ta, tb) {
                (None, None) => Ordering::Equal,
                (None, Some(y)) => Ordering::Less,
                (Some(x), None) => Ordering::Greater,
                (Some(x), Some(y)) => cmp_u32(y, x),
            }
        },
        SortBy::ApprovalCategory => {
            let ta = approval_key(meta_a);
            let tb = approval_key(meta_b);
            match (ta, tb) {
                (None, None) => Ordering::Equal,
                (None, Some(y)) => Ordering::Less,
                (Some(x), None) => Ordering::Greater,
                (Some(x), Some(y)) => cmp_u32(x, y),
            }
        },
    };
    let directed = if config.is_ascending {
        ord_reverse_exec(primary)
    } else {
        primary
    };
    let is_name = match config.sort_category {
        SortBy::Name => true,
        _ => false,
    };
    if !is_name {
        ord_then_exec(directed, name_order)
    } else {
        directed
    }
}

fn required_key(m: Option<&ModMetadata>) -> (r: Option<u32>)
    ensures
        match r {
            Some(x) => Some(x as int) == spec_required_key(meta_view(m)),
            None => spec_required_key(meta_view(m)) is None,
        },
{
    match m {
        Some(x) => match &x.modio_tags {
            Some(t) => Some(t.required_status),
            None => None,
        },
        None => None,
    }
}

fn approval_key(m: Option<&ModMetadata>) -> (r: Option<u32>)
    ensures
        match r {
            Some(x) => Some(x as int) == spec_approval_key(meta_view(m)),
            None => spec_approval_key(meta_view(m)) is None,
        },
{
    match m {
        Some(x) => match &x.modio_tags {
            Some(t) => Some(t.approval_status),
            None => None,
        },
        None => None,
    }
}

} // verus!
