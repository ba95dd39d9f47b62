use vstd::prelude::*;

use crate::float_text::Reading;
use crate::text::{owned, push_str, str_eq};

verus! {

/// A resolved delivery profile. The minimum duration is in nanoseconds
/// (or not a number), the longest silence in whole milliseconds, and the
/// volume floor in tenths of a decibel.
#[derive(Debug, Clone)]
pub struct Profile {
    pub extension: String,
    pub width: u32,
    pub height: u32,
    pub require_audio: bool,
    pub min_duration_ns: Reading,
    pub max_silence_ms: u64,
    pub min_mean_volume_db_tenths: i64,
    pub require_captions: bool,
    pub require_thumbnail: bool,
    pub max_file_size_mb: Option<u64>,
}

/// The content of a profile.
pub struct ProfileView {
    pub extension: Seq<char>,
    pub width: u32,
    pub height: u32,
    pub require_audio: bool,
    pub min_duration_ns: Reading,
    pub max_silence_ms: u64,
    pub min_mean_volume_db_tenths: i64,
    pub require_captions: bool,
    pub require_thumbnail: bool,
    pub max_file_size_mb: Option<u64>,
}

impl View for Profile {
    type V = ProfileView;

    open spec fn view(&self) -> ProfileView {
        ProfileView {
            extension: self.extension@,
            width: self.width,
            height: self.height,
            require_audio: self.require_audio,
            min_duration_ns: self.min_duration_ns,
            max_silence_ms: self.max_silence_ms,
            min_mean_volume_db_tenths: self.min_mean_volume_db_tenths,
            require_captions: self.require_captions,
            require_thumbnail: self.require_thumbnail,
            max_file_size_mb: self.max_file_size_mb,
        }
    }
}

/// The values a profile takes for whatever neither it nor a parent sets.
pub open spec fn base_profile() -> ProfileView {
    ProfileView {
        extension: "mp4"@,
        width: 1920,
        height: 1080,
        require_audio: true,
        min_duration_ns: Reading::Value(1_000_000_000),
        max_silence_ms: 2000,
        min_mean_volume_db_tenths: -500i64,
        require_captions: false,
        require_thumbnail: false,
        max_file_size_mb: None,
    }
}

impl Default for Profile {
    fn default() -> (p: Profile)
        ensures
            p@ == base_profile(),
    {
        Profile {
            extension: owned("mp4"),
            width: 1920,
            height: 1080,
            require_audio: true,
            min_duration_ns: Reading::Value(1_000_000_000),
            max_silence_ms: 2000,
            min_mean_volume_db_tenths: -500,
            require_captions: false,
            require_thumbnail: false,
            max_file_size_mb: None,
        }
    }
}

impl Profile {
    /// A copy of this profile.
    pub fn duplicate(&self) -> (p: Profile)
        ensures
            p@ == self@,
    {
        Profile {
            extension: self.extension.clone(),
            width: self.width,
            height: self.height,
            require_audio: self.require_audio,
            min_duration_ns: self.min_duration_ns,
            max_silence_ms: self.max_silence_ms,
            min_mean_volume_db_tenths: self.min_mean_volume_db_tenths,
            require_captions: self.require_captions,
            require_thumbnail: self.require_thumbnail,
            max_file_size_mb: self.max_file_size_mb,
        }
    }
}

/// A profile as written in the configuration: every field optional, and
/// possibly inheriting from another profile.
#[derive(Debug, Clone)]
pub struct ProfileEntry {
    pub inherits: Option<String>,
    pub extension: Option<String>,
    pub width: Option<u32>,
    pub height: Option<u32>,
    pub require_audio: Option<bool>,
    pub min_duration_ns: Option<Reading>,
    pub max_silence_ms: Option<u64>,
    pub min_mean_volume_db_tenths: Option<i64>,
    pub require_captions: Option<bool>,
    pub require_thumbnail: Option<bool>,
    pub max_file_size_mb: Option<u64>,
}

/// A configured profile under its name.
#[derive(Debug, Clone)]
pub struct NamedEntry {
    pub name: String,
    pub entry: ProfileEntry,
}

/// A resolved profile under its name.
#[derive(Debug, Clone)]
pub struct NamedProfile {
    pub name: String,
    pub profile: Profile,
}

/// The resolved delivery profiles of a configuration.
#[derive(Debug, Clone)]
pub struct AppConfig {
    pub profiles: Vec<NamedProfile>,
}

/// The first configured entry named `name`.
pub open spec fn lookup(entries: Seq<NamedEntry>, name: Seq<char>) -> Option<ProfileEntry>
    decreases entries.len(),
{
    if entries.len() == 0 {
        None
    } else if entries[0].name@ == name {
        Some(entries[0].entry)
    } else {
        lookup(entries.drop_first(), name)
    }
}

/// The first resolved profile named `name`.
pub open spec fn lookup_resolved(profiles: Seq<NamedProfile>, name: Seq<char>) -> Option<Profile>
    decreases profiles.len(),
{
    if profiles.len() == 0 {
        None
    } else if profiles[0].name@ == name {
        Some(profiles[0].profile)
    } else {
        lookup_resolved(profiles.drop_first(), name)
    }
}

/// `entry` laid over `base`: each field the entry sets, else the base's.
pub open spec fn merge(e: ProfileEntry, base: ProfileView) -> ProfileView {
    ProfileView {
        extension: match e.extension {
            Some(x) => x@,
            None => base.extension,
        },
        width: match e.width {
            Some(x) => x,
            None => base.width,
        },
        height: match e.height {
            Some(x) => x,
            None => base.height,
        },
        require_audio: match e.require_audio {
            Some(x) => x,
            None => base.require_audio,
        },
        min_duration_ns: match e.min_duration_ns {
            Some(x) => x,
            None => base.min_duration_ns,
        },
        max_silence_ms: match e.max_silence_ms {
            Some(x) => x,
            None => base.max_silence_ms,
        },
        min_mean_volume_db_tenths: match e.min_mean_volume_db_tenths {
            Some(x) => x,
            None => base.min_mean_volume_db_tenths,
        },
        require_captions: match e.require_captions {
            Some(x) => x,
            None => base.require_captions,
        },
        require_thumbnail: match e.require_thumbnail {
            Some(x) => x,
            None => base.require_thumbnail,
        },
        max_file_size_mb: match e.max_file_size_mb {
            Some(x) => Some(x),
            None => base.max_file_size_mb,
        },
    }
}

/// Following `inherits` from `name` ends within `fuel` steps, at a profile
/// without a parent or at a missing name.
pub open spec fn chain_ends(entries: Seq<NamedEntry>, name: Seq<char>, fuel: nat) -> bool
    decreases fuel,
{
    match lookup(entries, name) {
        None => true,
        Some(e) => match e.inherits {
            None => true,
            Some(p) => fuel > 0 && chain_ends(entries, p@, (fuel - 1) as nat),
        },
    }
}

/// No configured profile inherits, directly or not, from itself.
pub open spec fn inheritance_acyclic(entries: Seq<NamedEntry>) -> bool {
    forall|k: int| 0 <= k < entries.len() ==> chain_ends(entries, #[trigger] entries[k].name@, entries.len())
}

/// The error for a profile name that is not configured.
pub open spec fn not_found(name: Seq<char>) -> Seq<char> {
    "profile not found: "@ + name
}

/// The profile `name` resolves to: its entry laid over its parent's resolved
/// profile, or over the base profile when it has no parent.
pub open spec fn resolve_spec(entries: Seq<NamedEntry>, name: Seq<char>, fuel: nat) -> Result<
    ProfileView,
    Seq<char>,
>
    decreases fuel,
{
    match lookup(entries, name) {
        None => Err(not_found(name)),
        Some(e) => match e.inherits {
            None => Ok(merge(e, base_profile())),
            Some(p) => if fuel == 0 {
                Err(not_found(p@))
            } else {
                match resolve_spec(entries, p@, (fuel - 1) as nat) {
                    Err(m) => Err(m),
                    Ok(b) => Ok(merge(e, b)),
                }
            },
        },
    }
}

/// The profile `name` resolves to in `entries`.
pub open spec fn resolve(entries: Seq<NamedEntry>, name: Seq<char>) -> Result<ProfileView, Seq<char>> {
    resolve_spec(entries, name, entries.len())
}

proof fn lemma_chain_ends_mono(entries: Seq<NamedEntry>, name: Seq<char>, f: nat, g: nat)
    requires
        chain_ends(entries, name, f),
        f <= g,
    ensures
        chain_ends(entries, name, g),
        resolve_spec(entries, name, f) == resolve_spec(entries, name, g),
    decreases f,
{
    match lookup(entries, name) {
        None => {},
        Some(e) => match e.inherits {
            None => {},
            Some(p) => {
                lemma_chain_ends_mono(entries, p@, (f - 1) as nat, (g - 1) as nat);
            },
        },
    }
}

/// The index of the first entry named `name`.
fn find_entry(entries: &[NamedEntry], name: &str) -> (r: Option<usize>)
    ensures
        match r {
            Some(i) => i < entries@.len() && lookup(entries@, name@) == Some(entries@[i as int].entry),
            None => lookup(entries@, name@) is None,
        },
{
    let n = entries.len();
    let mut i: usize = 0;
    assert(entries@.skip(0) =~= entries@);
    while i < n
        invariant
            n == entries@.len(),
            i <= n,
            lookup(entries@, name@) == lookup(entries@.skip(i as int), name@),
        decreases n - i,
    {
        let ghost rest = entries@.skip(i as int);
        assert(rest[0] == entries@[i as int]);
        assert(rest.drop_first() =~= entries@.skip(i + 1));
        if str_eq(entries[i].name.as_str(), name) {
            return Some(i);
        }
        i = i + 1;
    }
    assert(entries@.skip(n as int).len() == 0);
    None
}

/// The first resolved profile named `name`.
fn find_resolved(profiles: &[NamedProfile], name: &str) -> (r: Option<usize>)
    ensures
        match r {
            Some(i) => i < profiles@.len() && lookup_resolved(profiles@, name@) == Some(
                profiles@[i as int].profile,
            ),
            None => lookup_resolved(profiles@, name@) is None,
        },
{
    let n = profiles.len();
    let mut i: usize = 0;
    assert(profiles@.skip(0) =~= profiles@);
    while i < n
        invariant
            n == profiles@.len(),
            i <= n,
            lookup_resolved(profiles@, name@) == lookup_resolved(profiles@.skip(i as int), name@),
        decreases n - i,
    {
        let ghost rest = profiles@.skip(i as int);
        assert(rest[0] == profiles@[i as int]);
        assert(rest.drop_first() =~= profiles@.skip(i + 1));
        if str_eq(profiles[i].name.as_str(), name) {
            return Some(i);
        }
        i = i + 1;
    }
    assert(profiles@.skip(n as int).len() == 0);
    None
}

/// `entry` laid over `base`.
fn merge_entry(entry: &ProfileEntry, base: Profile) -> (p: Profile)
    ensures
        p@ == merge(*entry, base@),
{
    Profile {
        extension: match &entry.extension {
            Some(x) => x.clone(),
            None => base.extension,
        },
        width: match entry.width {
            Some(x) => x,
            None => base.width,
        },
        height: match entry.height {
            Some(x) => x,
            None => base.height,
        },
        require_audio: match entry.require_audio {
            Some(x) => x,
            None => base.require_audio,
        },
        min_duration_ns: match entry.min_duration_ns {
            Some(x) => x,
            None => base.min_duration_ns,
        },
        max_silence_ms: match entry.max_silence_ms {
            Some(x) => x,
            None => base.max_silence_ms,
        },
        min_mean_volume_db_tenths: match entry.min_mean_volume_db_tenths {
            Some(x) => x,
            None => base.min_mean_volume_db_tenths,
        },
        require_captions: match entry.require_captions {
            Some(x) => x,
            None => base.require_captions,
        },
        require_thumbnail: match entry.require_thumbnail {
            Some(x) => x,
            None => base.require_thumbnail,
        },
        max_file_size_mb: match entry.max_file_size_mb {
            Some(x) => Some(x),
            None => base.max_file_size_mb,
        },
    }
}

/// Every profile in `cache` is what its name resolves to.
pub open spec fn cache_sound(entries: Seq<NamedEntry>, cache: Seq<NamedProfile>) -> bool {
    forall|k: int| 0 <= k < cache.len() ==> resolve(entries, #[trigger] cache[k].name@) == Ok::<
        ProfileView,
        Seq<char>,
    >(cache[k].profile@)
}

proof fn lemma_lookup_resolved_in(profiles: Seq<NamedProfile>, name: Seq<char>)
    ensures
        lookup_resolved(profiles, name) matches Some(p) ==> exists|k: int|
            0 <= k < profiles.len() && #[trigger] profiles[k].name@ == name && profiles[k].profile
                == p,
    decreases profiles.len(),
{
    if profiles.len() > 0 && profiles[0].name@ != name {
        let t = profiles.drop_first();
        lemma_lookup_resolved_in(t, name);
        if let Some(p) = lookup_resolved(t, name) {
            let k = choose|k: int| 0 <= k < t.len() && #[trigger] t[k].name@ == name && t[k].profile == p;
            assert(profiles[k + 1] == t[k]);
        }
    }
}

/// Resolves the profile `name`, reusing the profiles already in `cache`.
fn resolve_one(name: &str, entries: &[NamedEntry], cache: &[NamedProfile], fuel: usize) -> (r: Result<
    Profile,
    String,
>)
    requires
        chain_ends(entries@, name@, fuel as nat),
        fuel <= entries@.len(),
        cache_sound(entries@, cache@),
    ensures
        match r {
            Ok(p) => resolve(entries@, name@) == Ok::<ProfileView, Seq<char>>(p@),
            Err(m) => resolve(entries@, name@) == Err::<ProfileView, Seq<char>>(m@),
        },
    decreases fuel,
{
    proof {
        lemma_chain_ends_mono(entries@, name@, fuel as nat, entries@.len());
    }
    match find_resolved(cache, name) {
        Some(k) => {
            proof {
                lemma_lookup_resolved_in(cache@, name@);
            }
            return Ok(cache[k].profile.duplicate());
        },
        None => {},
    }
    let idx = match find_entry(entries, name) {
        Some(i) => i,
        None => {
            let mut msg = owned("profile not found: ");
            push_str(&mut msg, name);
            return Err(msg);
        },
    };
    let entry = &entries[idx].entry;
    let base = match &entry.inherits {
        None => Profile::default(),
        Some(parent) => {
            match resolve_one(parent.as_str(), entries, cache, fuel - 1) {
                Ok(b) => {
                    proof {
                        lemma_chain_ends_mono(entries@, parent@, (fuel - 1) as nat, entries@.len());
                    }
                    b
                },
                Err(m) => {
                    proof {
                        lemma_chain_ends_mono(entries@, parent@, (fuel - 1) as nat, entries@.len());
                    }
                    return Err(m);
                },
            }
        },
    };
    proof {
        if let Some(parent) = &entry.inherits {
            lemma_chain_ends_mono(entries@, parent@, (fuel - 1) as nat, entries@.len());
        }
    }
    Ok(merge_entry(entry, base))
}

/// Every entry before index `upto` resolves.
pub open spec fn all_resolve(entries: Seq<NamedEntry>, upto: int) -> bool {
    forall|k: int| 0 <= k < upto ==> #[trigger] resolve(entries, entries[k].name@) is Ok
}

/// Resolves every configured profile, in the order of `entries`. The result
/// holds one resolved profile per entry, under the entry's name; the first
/// entry that does not resolve gives the error.
pub fn resolve_profiles(entries: &[NamedEntry]) -> (r: Result<Vec<NamedProfile>, String>)
    requires
        inheritance_acyclic(entries@),
    ensures
        r is Ok <==> all_resolve(entries@, entries@.len() as int),
        match r {
            Ok(v) => v@.len() == entries@.len() && forall|k: int|
                0 <= k < v@.len() ==> #[trigger] v@[k].name@ == entries@[k].name@ && resolve(
                    entries@,
                    entries@[k].name@,
                ) == Ok::<ProfileView, Seq<char>>(v@[k].profile@),
            Err(m) => exists|k: int|
                0 <= k < entries@.len() && all_resolve(entries@, k) && #[trigger] resolve(
                    entries@,
                    entries@[k].name@,
                ) == Err::<ProfileView, Seq<char>>(m@),
        },
{
    let n = entries.len();
    let mut resolved: Vec<NamedProfile> = Vec::new();
    let mut i: usize = 0;
    while i < n
        invariant
            n == entries@.len(),
            inheritance_acyclic(entries@),
            i <= n,
            resolved@.len() == i,
            cache_sound(entries@, resolved@),
            all_resolve(entries@, i as int),
            forall|k: int|
                0 <= k < i ==> #[trigger] resolved@[k].name@ == entries@[k].name@ && resolve(
                    entries@,
                    entries@[k].name@,
                ) == Ok::<ProfileView, Seq<char>>(resolved@[k].profile@),
        decreases n - i,
    {
        let name = &entries[i].name;
        assert(chain_ends(entries@, entries@[i as int].name@, entries@.len()));
        match resolve_one(name.as_str(), entries, resolved.as_slice(), n) {
            Ok(profile) => {
                let ghost before = resolved@;
                resolved.push(NamedProfile { name: name.clone(), profile });
                assert forall|k: int| 0 <= k < i + 1 implies #[trigger] resolved@[k].name@ == entries@[k].name@ && resolve(
                    entries@,
                    entries@[k].name@,
                ) == Ok::<ProfileView, Seq<char>>(resolved@[k].profile@) by {
                    if k < i {
                        assert(resolved@[k] == before[k]);
                    }
                }
            },
            Err(m) => {
                return Err(m);
            },
        }
        i = i + 1;
    }
    Ok(resolved)
}

/// Whether every inheritance chain of `entries` ends.
pub fn inheritance_is_acyclic(entries: &[NamedEntry]) -> (r: bool)
    ensures
        r == inheritance_acyclic(entries@),
{
    let n = entries.len();
    let mut i: usize = 0;
    while i < n
        invariant
            n == entries@.len(),
            i <= n,
            forall|k: int| 0 <= k < i ==> chain_ends(entries@, #[trigger] entries@[k].name@, n as nat),
        decreases n - i,
    {
        if !chain_ends_within(entries, entries[i].name.as_str(), n) {
            return false;
        }
        i = i + 1;
    }
    true
}

/// Whether the inheritance chain from `name` ends within `fuel` steps.
fn chain_ends_within(entries: &[NamedEntry], name: &str, fuel: usize) -> (r: bool)
    ensures
        r == chain_ends(entries@, name@, fuel as nat),
    decreases fuel,
{
    match find_entry(entries, name) {
        None => true,
        Some(idx) => match &entries[idx].entry.inherits {
            None => true,
            Some(p) => fuel > 0 && chain_ends_within(entries, p.as_str(), fuel - 1),
        },
    }
}

impl AppConfig {
    /// The profile named `name`, if configured.
    pub fn get(&self, name: &str) -> (r: Option<&Profile>)
        ensures
            match r {
                Some(p) => lookup_resolved(self.profiles@, name@) == Some(*p),
                None => lookup_resolved(self.profiles@, name@) is None,
            },
    {
        match find_resolved(self.profiles.as_slice(), name) {
            Some(i) => Some(&self.profiles[i].profile),
            None => None,
        }
    }
}

proof fn lemma_lookup_some_named(entries: Seq<NamedEntry>, name: Seq<char>)
    requires
        lookup(entries, name) is Some,
    ensures
        exists|k: int| 0 <= k < entries.len() && #[trigger] entries[k].name@ == name,
    decreases entries.len(),
{
    if entries[0].name@ != name {
        lemma_lookup_some_named(entries.drop_first(), name);
        let k = choose|k: int| 0 <= k < entries.drop_first().len() && #[trigger] entries.drop_first()[k].name@ == name;
        assert(entries[k + 1].name@ == name);
    } else {
        assert(entries[0].name@ == name);
    }
}

/// A profile that inherits resolves to its own settings laid over its
/// parent's resolved profile: each field it sets wins, every other field
/// comes from the parent, and a parent that does not resolve makes it fail
/// the same way.
pub proof fn law_inheritance_merges_parent(entries: Seq<NamedEntry>, name: Seq<char>, e: ProfileEntry, parent: String)
    requires
        inheritance_acyclic(entries),
        lookup(entries, name) == Some(e),
        e.inherits == Some(parent),
    ensures
        resolve(entries, name) == match resolve(entries, parent@) {
            Ok(b) => Ok::<ProfileView, Seq<char>>(merge(e, b)),
            Err(m) => Err(m),
        },
{
    lemma_lookup_some_named(entries, name);
    let k = choose|k: int| 0 <= k < entries.len() && #[trigger] entries[k].name@ == name;
    let n = entries.len();
    assert(chain_ends(entries, entries[k].name@, n));
    assert(chain_ends(entries, parent@, (n - 1) as nat));
    lemma_chain_ends_mono(entries, parent@, (n - 1) as nat, n);
}

/// A profile without a parent resolves to its own settings laid over the
/// base profile.
pub proof fn law_root_profile_merges_base(entries: Seq<NamedEntry>, name: Seq<char>, e: ProfileEntry)
    requires
        lookup(entries, name) == Some(e),
        e.inherits is None,
    ensures
        resolve(entries, name) == Ok::<ProfileView, Seq<char>>(merge(e, base_profile())),
{
}

/// A name that no entry carries does not resolve: the error names it.
pub proof fn law_unknown_profile_is_not_found(entries: Seq<NamedEntry>, name: Seq<char>)
    requires
        lookup(entries, name) is None,
    ensures
        resolve(entries, name) == Err::<ProfileView, Seq<char>>("profile not found: "@ + name),
{
}

/// A profile already resolved into a cache that holds only resolved
/// profiles resolves to the cached profile.
pub proof fn law_cached_profile_is_reused(entries: Seq<NamedEntry>, cache: Seq<NamedProfile>, name: Seq<char>)
    requires
        cache_sound(entries, cache),
        lookup_resolved(cache, name) is Some,
    ensures
        lookup_resolved(cache, name) matches Some(p) && resolve(entries, name) == Ok::<
            ProfileView,
            Seq<char>,
        >(p@),
{
    lemma_lookup_resolved_in(cache, name);
}

/// The refusal for a chosen profile name that the configuration lacks.
pub open spec fn profile_missing(name: Seq<char>) -> Seq<char> {
    "Profile not found: "@ + name
}

/// The first of `names` that `config` has no profile for, by index.
pub open spec fn first_unknown_profile(config: AppConfig, names: Seq<String>) -> int
    decreases names.len(),
{
    if names.len() == 0 {
        -1
    } else if lookup_resolved(config.profiles@, names[0]@) is None {
        0
    } else {
        let r = first_unknown_profile(config, names.drop_first());
        if r < 0 {
            -1
        } else {
            r + 1
        }
    }
}

/// `k` is the first of `names` without a profile (or `-1` when there is
/// none) when all before it have one.
pub proof fn lemma_first_unknown_profile(config: AppConfig, names: Seq<String>, k: int)
    requires
        -1 <= k < names.len(),
        k >= 0 ==> lookup_resolved(config.profiles@, names[k]@) is None,
        forall|j: int|
            0 <= j < names.len() && (k < 0 || j < k) ==> lookup_resolved(
                config.profiles@,
                (#[trigger] names[j])@,
            ) is Some,
    ensures
        first_unknown_profile(config, names) == k,
    decreases names.len(),
{
    if names.len() > 0 && k != 0 {
        let t = names.drop_first();
        assert forall|j: int|
            0 <= j < t.len() && (k - 1 < 0 || j < k - 1) implies lookup_resolved(
            config.profiles@,
            (#[trigger] t[j])@,
        ) is Some by {
            assert(t[j] == names[j + 1]);
        }
        if k > 0 {
            assert(t[k - 1] == names[k]);
            lemma_first_unknown_profile(config, t, k - 1);
        } else {
            assert(lookup_resolved(config.profiles@, names[0]@) is Some);
            lemma_first_unknown_profile(config, t, -1);
        }
    }
}

proof fn lemma_resolve_error(entries: Seq<NamedEntry>, name: Seq<char>, fuel: nat)
    requires
        chain_ends(entries, name, fuel),
    ensures
        resolve_spec(entries, name, fuel) matches Err(m) ==> exists|q: Seq<char>|
            #[trigger] lookup(entries, q) is None && m == not_found(q),
    decreases fuel,
{
    match lookup(entries, name) {
        None => {},
        Some(e) => match e.inherits {
            None => {},
            Some(p) => {
                lemma_resolve_error(entries, p@, (fuel - 1) as nat);
            },
        },
    }
}

/// Where inheritance has no cycle, a profile that does not resolve fails
/// on a name in its chain that no entry carries, and the error names it.
pub proof fn law_resolution_fails_only_on_missing_names(entries: Seq<NamedEntry>, name: Seq<char>)
    requires
        inheritance_acyclic(entries),
    ensures
        resolve(entries, name) matches Err(m) ==> exists|q: Seq<char>|
            #[trigger] lookup(entries, q) is None && m == "profile not found: "@ + q,
{
    match lookup(entries, name) {
        None => {},
        Some(e) => {
            lemma_lookup_some_named(entries, name);
            let k = choose|k: int| 0 <= k < entries.len() && #[trigger] entries[k].name@ == name;
            assert(chain_ends(entries, entries[k].name@, entries.len()));
            lemma_resolve_error(entries, name, entries.len());
        },
    }
}

/// What a profile entry sets is what its profile resolves to: for every
/// field the entry gives a value, the resolved profile has that value,
/// whatever it inherits.
pub proof fn law_entry_settings_win(entries: Seq<NamedEntry>, name: Seq<char>, e: ProfileEntry, p: ProfileView)
    requires
        lookup(entries, name) == Some(e),
        resolve(entries, name) == Ok::<ProfileView, Seq<char>>(p),
    ensures
        e.extension matches Some(x) ==> p.extension == x@,
        e.width matches Some(x) ==> p.width == x,
        e.height matches Some(x) ==> p.height == x,
        e.require_audio matches Some(x) ==> p.require_audio == x,
        e.min_duration_ns matches Some(x) ==> p.min_duration_ns == x,
        e.max_silence_ms matches Some(x) ==> p.max_silence_ms == x,
        e.min_mean_volume_db_tenths matches Some(x) ==> p.min_mean_volume_db_tenths == x,
        e.require_captions matches Some(x) ==> p.require_captions == x,
        e.require_thumbnail matches Some(x) ==> p.require_thumbnail == x,
        e.max_file_size_mb matches Some(x) ==> p.max_file_size_mb == Some(x),
{
    let n = entries.len();
    match e.inherits {
        None => {
            assert(p == merge(e, base_profile()));
        },
        Some(q) => {
            assert(n > 0) by {
                lemma_lookup_some_named(entries, name);
            }
            let b = match resolve_spec(entries, q@, (n - 1) as nat) {
                Ok(b) => b,
                Err(_) => base_profile(),
            };
            assert(p == merge(e, b));
        },
    }
}

} // verus!
