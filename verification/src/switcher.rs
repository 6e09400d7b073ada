//! The switch engine: computing the redirection plan for a resolved
//! path set, the switch state machine, and wrapper-script plans for
//! auxiliary tools.

use vstd::prelude::*;

use crate::detector::{file_name_of, file_name_start, php_name, primary_index};
use crate::tools::PhpTool;
use crate::version::is_digit;

verus! {

/// Why a switch could not be carried out.
#[derive(Debug, Clone, PartialEq, Eq, Structural)]
pub enum SwitchError {
    /// The resolved path set was empty.
    NoBinaries,
    /// The requested pattern matched nothing, even after a fresh scan.
    NotFound,
    /// Creating a redirection entry failed.
    LinkFailed,
    /// The system reports no home directory.
    HomeNotFound,
    /// An event arrived that the current state cannot accept.
    UnexpectedEvent,
}

/// One desired redirection entry: a name in the managed directory and
/// the binary path it redirects to.
#[derive(Debug, Clone, PartialEq)]
pub struct LinkEntry {
    pub name: String,
    pub target: String,
}

/// A character that may appear in an embedded version token.
pub open spec fn ver_char(c: char) -> bool {
    is_digit(c) || c == '.'
}

/// Length of the run of version-token characters starting at `from`.
pub open spec fn ver_run_len(s: Seq<char>, from: int) -> nat
    decreases s.len() - from,
{
    if 0 <= from < s.len() && ver_char(s[from]) {
        1 + ver_run_len(s, from + 1)
    } else {
        0
    }
}

proof fn lemma_ver_run_exact(s: Seq<char>, from: int, to: int)
    requires
        0 <= from <= to <= s.len(),
        forall|k: int| from <= k < to ==> ver_char(#[trigger] s[k]),
        to == s.len() || !ver_char(s[to]),
    ensures
        ver_run_len(s, from) == to - from,
    decreases to - from,
{
    if from < to {
        lemma_ver_run_exact(s, from + 1, to);
    }
}

/// The standardized alias for a discovered file name, or `None` when
/// the name is already represented by the primary entry: the name
/// `php` itself, or `php` followed only by a version token.
pub open spec fn alias_of(name: Seq<char>) -> Option<Seq<char>> {
    if name == php_name() {
        None
    } else if name.len() >= 3 && name.subrange(0, 3) == php_name() {
        let k = ver_run_len(name, 3) as int;
        let rest = name.skip(3 + k);
        if rest.len() == 0 || rest == php_name() {
            None
        } else {
            Some(php_name() + rest)
        }
    } else {
        Some(name)
    }
}

/// Stripping an embedded version token: a name formed as
/// `php<token><suffix>` yields alias `php<suffix>`, and a name that is
/// only `php` plus a token is skipped as redundant with the primary.
pub proof fn lemma_alias_strips_version(ver: Seq<char>, rest: Seq<char>)
    requires
        forall|i: int| 0 <= i < ver.len() ==> ver_char(#[trigger] ver[i]),
        rest.len() > 0 ==> !ver_char(rest[0]),
    ensures
        rest.len() == 0 || rest == php_name() ==> alias_of(php_name() + ver + rest) is None,
        rest.len() > 0 && rest != php_name() ==> alias_of(php_name() + ver + rest) == Some(
            php_name() + rest,
        ),
{
    let name = php_name() + ver + rest;
    assert(name.len() == 3 + ver.len() + rest.len());
    assert(forall|k: int| 0 <= k < ver.len() ==> name[3 + k] == #[trigger] ver[k]);
    assert(forall|k: int| 0 <= k < rest.len() ==> name[3 + ver.len() + k] == #[trigger] rest[k]);
    assert(forall|k: int| 3 <= k < 3 + ver.len() ==> ver_char(#[trigger] name[k]));
    if rest.len() > 0 {
        assert(!ver_char(name[3 + ver.len() as int]));
    }
    lemma_ver_run_exact(name, 3, 3 + ver.len() as int);
    assert(name.subrange(0, 3) =~= php_name());
    assert(name.skip(3 + ver.len() as int) =~= rest);
    if name == php_name() {
        assert(ver.len() == 0 && rest.len() == 0);
    }
    if rest.len() > 0 && rest != php_name() {
        assert(alias_of(name) == Some(php_name() + rest));
    }
}

/// The alias entries contributed by each path of the set, in order.
pub open spec fn alias_entries(paths: Seq<String>) -> Seq<(Seq<char>, Seq<char>)>
    decreases paths.len(),
{
    if paths.len() == 0 {
        Seq::<(Seq<char>, Seq<char>)>::empty()
    } else {
        let rest = alias_entries(paths.drop_last());
        match alias_of(file_name_of(paths.last()@)) {
            Some(nm) => rest.push((nm, paths.last()@)),
            None => rest,
        }
    }
}

/// The desired bindings of a switch: the canonical `php` entry for the
/// primary path, then one standardized alias per remaining path.
pub open spec fn plan_spec(paths: Seq<String>) -> Seq<(Seq<char>, Seq<char>)> {
    seq![(php_name(), paths[primary_index(paths)]@)] + alias_entries(paths)
}

/// The name-target views of a plan.
pub open spec fn link_views(plan: Seq<LinkEntry>) -> Seq<(Seq<char>, Seq<char>)> {
    plan.map_values(|e: LinkEntry| (e.name@, e.target@))
}

/// The standardized alias for the file name of `path`, as an owned
/// string, or `None` when that name is skipped.
pub fn alias_for_path(path: &str) -> (r: Option<String>)
    ensures
        match r {
            Some(s) => alias_of(file_name_of(path@)) == Some(s@),
            None => alias_of(file_name_of(path@)) is None,
        },
{
    let cs = crate::version::str_chars(path);
    let n = cs.len();
    let start = file_name_start(path);
    let ghost name = file_name_of(path@);
    proof {
        assert(name.len() == n - start);
        assert(forall|k: int| 0 <= k < name.len() ==> #[trigger] name[k] == cs@[start + k]);
    }
    let has_php_prefix = n - start >= 3 && cs[start] == 'p' && cs[start + 1] == 'h' && cs[start
        + 2] == 'p';
    proof {
        if has_php_prefix {
            assert(name.subrange(0, 3) =~= php_name());
        } else if n - start >= 3 {
            assert(name.subrange(0, 3) != php_name()) by {
                if name.subrange(0, 3) == php_name() {
                    assert(name[0] == 'p' && name[1] == 'h' && name[2] == 'p') by {
                        assert(name.subrange(0, 3)[0] == name[0]);
                        assert(name.subrange(0, 3)[1] == name[1]);
                        assert(name.subrange(0, 3)[2] == name[2]);
                    }
                }
            }
        }
        if name == php_name() {
            assert(n - start == 3 && name[0] == 'p' && name[1] == 'h' && name[2] == 'p');
        }
    }
    if has_php_prefix && n - start == 3 {
        proof {
            assert(name =~= php_name());
        }
        return None;
    }
    if has_php_prefix {
        let mut j = start + 3;
        while j < n && is_ver_char(cs[j])
            invariant
                start + 3 <= j <= n,
                n == cs@.len(),
                forall|k: int| start + 3 <= k < j ==> ver_char(#[trigger] cs@[k]),
            decreases n - j,
        {
            j = j + 1;
        }
        proof {
            assert(forall|k: int| 3 <= k < j - start ==> ver_char(#[trigger] name[k]));
            lemma_ver_run_exact(name, 3, j - start);
        }
        if j == n {
            proof {
                assert(name.skip(3 + ver_run_len(name, 3) as int).len() == 0);
            }
            return None;
        }
        let ghost rest = name.skip(3 + ver_run_len(name, 3) as int);
        proof {
            assert(rest =~= cs@.subrange(j as int, n as int));
            assert(rest.len() == n - j);
        }
        if n - j == 3 && cs[j] == 'p' && cs[j + 1] == 'h' && cs[j + 2] == 'p' {
            proof {
                assert(rest =~= php_name());
            }
            return None;
        }
        proof {
            if rest.len() == 3 {
                assert(rest != php_name()) by {
                    if rest == php_name() {
                        assert(rest[0] == 'p' && rest[1] == 'h' && rest[2] == 'p');
                        assert(cs@[j as int] == 'p' && cs@[j + 1] == 'h' && cs@[j + 2] == 'p');
                    }
                }
            }
        }
        let tail = path.substring_char(j, n);
        let s = String::from_str("php").concat(tail);
        proof {
            reveal_strlit("php");
            assert("php"@ =~= php_name());
            assert(s@ == php_name() + rest);
        }
        Some(s)
    } else {
        let s = path.substring_char(start, n).to_owned();
        proof {
            assert(s@ =~= name);
        }
        Some(s)
    }
}

fn is_ver_char(c: char) -> (r: bool)
    ensures
        r == ver_char(c),
{
    let cu = c as u32;
    (('0' as u32) <= cu && cu <= ('9' as u32)) || c == '.'
}

/// Computes the redirection plan for a resolved path set: the primary
/// path under the canonical name, then one entry per standardized
/// alias. Fails exactly when the set is empty.
pub fn compute_symlink_plan(paths: &Vec<String>) -> (r: Result<Vec<LinkEntry>, SwitchError>)
    ensures
        match r {
            Ok(plan) => paths@.len() > 0 && link_views(plan@) == plan_spec(paths@),
            Err(e) => paths@.len() == 0 && e == SwitchError::NoBinaries,
        },
{
    let primary = match crate::detector::primary_of_paths(paths) {
        Some(p) => p,
        None => {
            return Err(SwitchError::NoBinaries);
        },
    };
    let mut plan: Vec<LinkEntry> = Vec::new();
    let php = String::from_str("php");
    proof {
        reveal_strlit("php");
        assert(php@ =~= php_name());
    }
    plan.push(LinkEntry { name: php, target: primary });
    proof {
        assert(alias_entries(paths@.take(0)) =~= Seq::<(Seq<char>, Seq<char>)>::empty());
        assert(link_views(plan@) =~= seq![(php_name(), paths@[primary_index(paths@)]@)]
            + alias_entries(paths@.take(0)));
    }
    let n = paths.len();
    let mut i: usize = 0;
    while i < n
        invariant
            i <= n,
            n == paths@.len(),
            n > 0,
            link_views(plan@) == seq![(php_name(), paths@[primary_index(paths@)]@)]
                + alias_entries(paths@.take(i as int)),
        decreases n - i,
    {
        let ghost before = plan@;
        let ghost prev = paths@.take(i as int);
        match alias_for_path(paths[i].as_str()) {
            Some(nm) => {
                let ghost nv = nm@;
                plan.push(LinkEntry { name: nm, target: paths[i].clone() });
                proof {
                    assert(link_views(plan@) =~= link_views(before).push(
                        (nv, paths@[i as int]@),
                    ));
                }
            },
            None => {},
        }
        proof {
            let cur = paths@.take(i + 1);
            assert(cur.drop_last() =~= prev);
            assert(cur.last() == paths@[i as int]);
            assert(link_views(plan@) =~= seq![(php_name(), paths@[primary_index(paths@)]@)]
                + alias_entries(cur));
        }
        i = i + 1;
    }
    proof {
        assert(paths@.take(n as int) =~= paths@);
    }
    Ok(plan)
}

/// The managed directory after carrying out a plan: each binding is
/// created in order, replacing any existing entry of that name.
pub open spec fn apply_plan(
    dir: Map<Seq<char>, Seq<char>>,
    plan: Seq<(Seq<char>, Seq<char>)>,
) -> Map<Seq<char>, Seq<char>>
    decreases plan.len(),
{
    if plan.len() == 0 {
        dir
    } else {
        apply_plan(dir, plan.drop_last()).insert(plan.last().0, plan.last().1)
    }
}

/// The last binding of `name` in the plan, if any.
pub open spec fn plan_lookup(plan: Seq<(Seq<char>, Seq<char>)>, name: Seq<char>) -> Option<
    Seq<char>,
>
    decreases plan.len(),
{
    if plan.len() == 0 {
        None
    } else if plan.last().0 == name {
        Some(plan.last().1)
    } else {
        plan_lookup(plan.drop_last(), name)
    }
}

proof fn lemma_apply_plan_pointwise(
    dir: Map<Seq<char>, Seq<char>>,
    plan: Seq<(Seq<char>, Seq<char>)>,
    name: Seq<char>,
)
    ensures
        apply_plan(dir, plan).dom().contains(name) == (dir.dom().contains(name) || plan_lookup(
            plan,
            name,
        ) is Some),
        apply_plan(dir, plan).dom().contains(name) ==> apply_plan(dir, plan)[name] == (
        match plan_lookup(plan, name) {
            Some(t) => t,
            None => dir[name],
        }),
    decreases plan.len(),
{
    if plan.len() > 0 {
        lemma_apply_plan_pointwise(dir, plan.drop_last(), name);
    }
}

/// Re-running a switch changes nothing: applying the same plan to the
/// directory it produced yields that directory again, byte for byte.
pub proof fn lemma_switch_idempotent(
    dir: Map<Seq<char>, Seq<char>>,
    plan: Seq<(Seq<char>, Seq<char>)>,
)
    ensures
        apply_plan(apply_plan(dir, plan), plan) == apply_plan(dir, plan),
{
    let once = apply_plan(dir, plan);
    let twice = apply_plan(once, plan);
    assert forall|name: Seq<char>| #[trigger] twice.dom().contains(name) implies
        once.dom().contains(name) && twice[name] == once[name] by {
        lemma_apply_plan_pointwise(dir, plan, name);
        lemma_apply_plan_pointwise(once, plan, name);
    }
    assert forall|name: Seq<char>| #[trigger] once.dom().contains(name) implies
        twice.dom().contains(name) by {
        lemma_apply_plan_pointwise(dir, plan, name);
        lemma_apply_plan_pointwise(once, plan, name);
    }
    assert(twice =~= once);
}

/// The name-to-content bindings that writing a shim plan produces.
pub open spec fn shim_bindings(s: Seq<(Seq<char>, Seq<char>, Seq<char>, bool)>) -> Seq<
    (Seq<char>, Seq<char>),
> {
    s.map_values(|t: (Seq<char>, Seq<char>, Seq<char>, bool)| (t.0, t.2))
}

/// Regenerating shims overwrites rather than duplicates: writing the
/// same shim plan into the directory it produced leaves that directory
/// unchanged — a second generation for the same tools is harmless.
pub proof fn lemma_shim_regeneration_idempotent(
    dir: Map<Seq<char>, Seq<char>>,
    tools: Seq<PhpTool>,
    bin: Seq<char>,
    php: Seq<char>,
)
    ensures
        ({
            let writes = shim_bindings(shim_entries(tools, bin, php));
            apply_plan(apply_plan(dir, writes), writes) == apply_plan(dir, writes)
        }),
{
    lemma_switch_idempotent(dir, shim_bindings(shim_entries(tools, bin, php)));
}

/// Where a switch stands.
pub enum SwitchState {
    /// Looking the requested pattern up in the cached registry.
    Resolving,
    /// The cache had no match; a fresh scan is under way.
    Scanning,
    /// A path set was resolved; redirection entries are being created.
    Linking,
    /// Entries are in place; the canonical entry is being probed.
    Verifying,
    /// The switch succeeded.
    Done,
    /// The switch ended without success.
    Failed(SwitchError),
}

/// What the switch engine has observed.
pub enum SwitchEvent {
    /// The registry lookup finished with the given path set, if any.
    LookupDone(Option<Vec<String>>),
    /// A fresh scan ran and the retried lookup finished.
    ScanLookupDone(Option<Vec<String>>),
    /// Creating the redirection entries succeeded or failed.
    LinkApplied(bool),
    /// Probing the canonical entry succeeded or failed.
    ProbeChecked(bool),
}

/// What the caller must do next.
pub enum SwitchAction {
    /// Look the pattern up in the cached registry.
    QueryCache,
    /// Run a full discovery, persist it, and retry the lookup.
    RescanThenQuery,
    /// Create every entry of the plan, replacing existing ones.
    ApplyLinks(Vec<LinkEntry>),
    /// Probe the canonical redirection entry.
    ProbeActive,
    /// Show installation hints; the switch is over.
    ShowHintsAndStop,
    /// Nothing further; the switch is over.
    Stop,
}

/// One step of the switch state machine: from the current state and an
/// observed event to the next state and the action to perform.
///
/// A lookup that yields a non-empty path set moves to linking with the
/// computed plan; a missing result from the cache triggers a scan, and
/// an empty or missing result after that is terminal, as is a cached
/// entry with no paths. Link failure aborts the switch, while the
/// verification probe is advisory: the switch succeeds whatever it
/// reports.
pub fn switch_step(state: SwitchState, event: SwitchEvent) -> (r: (SwitchState, SwitchAction))
    ensures
        match (state, event) {
            (SwitchState::Resolving, SwitchEvent::LookupDone(found)) => match found {
                Some(paths) => if paths@.len() > 0 {
                    r.0 is Linking && (r.1 matches SwitchAction::ApplyLinks(plan)
                        && link_views(plan@) == plan_spec(paths@))
                } else {
                    r.0 == SwitchState::Failed(SwitchError::NotFound) && r.1
                        is ShowHintsAndStop
                },
                None => r.0 is Scanning && r.1 is RescanThenQuery,
            },
            (SwitchState::Scanning, SwitchEvent::ScanLookupDone(found)) => match found {
                Some(paths) => if paths@.len() > 0 {
                    r.0 is Linking && (r.1 matches SwitchAction::ApplyLinks(plan)
                        && link_views(plan@) == plan_spec(paths@))
                } else {
                    r.0 == SwitchState::Failed(SwitchError::NotFound) && r.1
                        is ShowHintsAndStop
                },
                None => r.0 == SwitchState::Failed(SwitchError::NotFound) && r.1
                    is ShowHintsAndStop,
            },
            (SwitchState::Linking, SwitchEvent::LinkApplied(ok)) => if ok {
                r.0 is Verifying && r.1 is ProbeActive
            } else {
                r.0 == SwitchState::Failed(SwitchError::LinkFailed) && r.1 is Stop
            },
            (SwitchState::Verifying, SwitchEvent::ProbeChecked(_)) => r.0 is Done && r.1
                is Stop,
            _ => r.0 == SwitchState::Failed(SwitchError::UnexpectedEvent) && r.1 is Stop,
        },
{
    match (state, event) {
        (SwitchState::Resolving, SwitchEvent::LookupDone(found)) => match found {
            Some(paths) => match compute_symlink_plan(&paths) {
                Ok(plan) => (SwitchState::Linking, SwitchAction::ApplyLinks(plan)),
                Err(_) => (
                    SwitchState::Failed(SwitchError::NotFound),
                    SwitchAction::ShowHintsAndStop,
                ),
            },
            None => (SwitchState::Scanning, SwitchAction::RescanThenQuery),
        },
        (SwitchState::Scanning, SwitchEvent::ScanLookupDone(found)) => match found {
            Some(paths) => match compute_symlink_plan(&paths) {
                Ok(plan) => (SwitchState::Linking, SwitchAction::ApplyLinks(plan)),
                Err(_) => (
                    SwitchState::Failed(SwitchError::NotFound),
                    SwitchAction::ShowHintsAndStop,
                ),
            },
            None => (
                SwitchState::Failed(SwitchError::NotFound),
                SwitchAction::ShowHintsAndStop,
            ),
        },
        (SwitchState::Linking, SwitchEvent::LinkApplied(ok)) => {
            if ok {
                (SwitchState::Verifying, SwitchAction::ProbeActive)
            } else {
                (SwitchState::Failed(SwitchError::LinkFailed), SwitchAction::Stop)
            }
        },
        (SwitchState::Verifying, SwitchEvent::ProbeChecked(_)) => (
            SwitchState::Done,
            SwitchAction::Stop,
        ),
        _ => (SwitchState::Failed(SwitchError::UnexpectedEvent), SwitchAction::Stop),
    }
}

/// The directory that holds the redirection entries: `bin` inside the
/// configuration directory.
pub fn get_bin_dir() -> (r: Result<String, SwitchError>)
    ensures
        match r {
            Ok(p) => exists|h: Seq<char>| p@ == h + "/.php-switcher"@ + "/bin"@,
            Err(e) => e == SwitchError::HomeNotFound,
        },
{
    match crate::config::get_config_dir() {
        Ok(dir) => {
            let ghost h = choose|h: Seq<char>| dir@ == h + "/.php-switcher"@;
            let p = dir.concat("/bin");
            proof {
                assert(p@ == h + "/.php-switcher"@ + "/bin"@);
            }
            Ok(p)
        },
        Err(_) => Err(SwitchError::HomeNotFound),
    }
}

/// One wrapper script to be written: its file path, its content, and
/// that it must be marked executable.
#[derive(Debug, Clone, PartialEq)]
pub struct ShimFile {
    pub name: String,
    pub path: String,
    pub content: String,
    pub executable: bool,
}

/// The text of a wrapper script: it invokes the redirected canonical
/// binary with the tool's original script path, passing all caller
/// arguments through.
pub open spec fn shim_content_of(name: Seq<char>, orig: Seq<char>, php: Seq<char>) -> Seq<char> {
    "#!/bin/bash\n# Shim for "@ + name + " managed by php-switcher\n# Original: "@ + orig
        + "\nexec "@ + php + " "@ + orig + " \"$@\"\n"@
}

/// The views of a shim plan: name, file path, content, executable bit.
pub open spec fn shim_views(s: Seq<ShimFile>) -> Seq<(Seq<char>, Seq<char>, Seq<char>, bool)> {
    s.map_values(|f: ShimFile| (f.name@, f.path@, f.content@, f.executable))
}

/// The wrapper scripts owed for a tool list: one per tool whose
/// shebang needs a shim, in list order, each under the tool's name in
/// `bin`, with regenerated content and the executable bit set.
pub open spec fn shim_entries(tools: Seq<PhpTool>, bin: Seq<char>, php: Seq<char>) -> Seq<
    (Seq<char>, Seq<char>, Seq<char>, bool),
>
    decreases tools.len(),
{
    if tools.len() == 0 {
        Seq::<(Seq<char>, Seq<char>, Seq<char>, bool)>::empty()
    } else {
        let rest = shim_entries(tools.drop_last(), bin, php);
        let t = tools.last();
        if crate::tools::spec_needs_shim(t.shebang@) {
            rest.push(
                (
                    t.name@,
                    bin + seq!['/'] + t.name@,
                    shim_content_of(t.name@, t.original_path@, php),
                    true,
                ),
            )
        } else {
            rest
        }
    }
}

/// Builds the wrapper script for one tool.
fn build_shim(tool: &PhpTool, bin_dir: &str, switcher_php: &str) -> (r: ShimFile)
    ensures
        r.name@ == tool.name@,
        r.path@ == bin_dir@ + seq!['/'] + tool.name@,
        r.content@ == shim_content_of(tool.name@, tool.original_path@, switcher_php@),
        r.executable,
{
    proof {
        reveal_strlit("/");
    }
    let mut path = String::new();
    path.append(bin_dir);
    path.append("/");
    path.append(tool.name.as_str());
    proof {
        assert(path@ =~= bin_dir@ + seq!['/'] + tool.name@);
    }
    let mut content = String::new();
    content.append("#!/bin/bash\n# Shim for ");
    content.append(tool.name.as_str());
    content.append(" managed by php-switcher\n# Original: ");
    content.append(tool.original_path.as_str());
    content.append("\nexec ");
    content.append(switcher_php);
    content.append(" ");
    content.append(tool.original_path.as_str());
    content.append(" \"$@\"\n");
    ShimFile {
        name: tool.name.clone(),
        path,
        content,
        executable: true,
    }
}

/// The wrapper scripts owed for `tools` given the redirected binary's
/// path: exactly one per tool whose shebang needs a shim.
pub fn shims_for_tools(tools: &Vec<PhpTool>, bin_dir: &str, switcher_php: &str) -> (r: Vec<
    ShimFile,
>)
    ensures
        shim_views(r@) == shim_entries(tools@, bin_dir@, switcher_php@),
{
    let mut r: Vec<ShimFile> = Vec::new();
    let n = tools.len();
    let mut i: usize = 0;
    proof {
        assert(shim_views(r@) =~= shim_entries(tools@.take(0), bin_dir@, switcher_php@));
    }
    while i < n
        invariant
            i <= n,
            n == tools@.len(),
            shim_views(r@) == shim_entries(tools@.take(i as int), bin_dir@, switcher_php@),
        decreases n - i,
    {
        let ghost before = r@;
        if crate::tools::needs_shim(tools[i].shebang.as_str()) {
            let shim = build_shim(&tools[i], bin_dir, switcher_php);
            r.push(shim);
        }
        proof {
            let cur = tools@.take(i + 1);
            assert(cur.drop_last() =~= tools@.take(i as int));
            assert(cur.last() == tools@[i as int]);
            assert(shim_views(r@) =~= shim_entries(cur, bin_dir@, switcher_php@));
        }
        i = i + 1;
    }
    proof {
        assert(tools@.take(n as int) =~= tools@);
    }
    r
}

/// Computes the wrapper scripts to (re)create for the managed tools:
/// one per tool with a hardcoded interpreter path, each regenerated
/// from current tool metadata and marked executable. Fails only when
/// no home directory is reported.
pub fn create_shims_for_tools(tools: &Vec<PhpTool>, bin_dir: &str) -> (r: Result<
    Vec<ShimFile>,
    SwitchError,
>)
    ensures
        match r {
            Ok(shims) => exists|h: Seq<char>|
                shim_views(shims@) == shim_entries(
                    tools@,
                    bin_dir@,
                    h + "/.php-switcher/bin/php"@,
                ),
            Err(e) => e == SwitchError::HomeNotFound,
        },
{
    match crate::config::home_dir_string() {
        Some(home) => {
            let php = home.concat("/.php-switcher/bin/php");
            let ghost hv = home@;
            let shims = shims_for_tools(tools, bin_dir, php.as_str());
            proof {
                assert(php@ == hv + "/.php-switcher/bin/php"@);
                assert(shim_views(shims@) == shim_entries(
                    tools@,
                    bin_dir@,
                    hv + "/.php-switcher/bin/php"@,
                ));
            }
            Ok(shims)
        },
        None => Err(SwitchError::HomeNotFound),
    }
}

} // verus!
