//! Provider routing: named providers, a default, model aliases, and the
//! resolution of `provider/model` names.
use vstd::prelude::*;
use vstd::string::*;
use vstd::utf8::*;
use crate::text::{str_eq, substr};
use crate::split::strings_chars;

verus! {

broadcast use {vstd::utf8::encode_utf8_valid_utf8, vstd::utf8::encode_utf8_decode_utf8};

/// Names are distinct.
pub open spec fn names_distinct<P>(e: Seq<(String, P)>) -> bool {
    forall|i: int, j: int| 0 <= i < j < e.len() ==> (#[trigger] e[i]).0@ != (#[trigger] e[j]).0@
}

/// The names, in order.
pub open spec fn name_list<P>(e: Seq<(String, P)>) -> Seq<Seq<char>> {
    e.map_values(|p: (String, P)| p.0@)
}

/// Position of `name`, if present.
pub open spec fn find_name<P>(e: Seq<(String, P)>, name: Seq<char>) -> Option<int> {
    if exists|i: int| 0 <= i < e.len() && (#[trigger] e[i]).0@ == name {
        Some(choose|i: int| 0 <= i < e.len() && (#[trigger] e[i]).0@ == name)
    } else {
        None
    }
}

/// Named values kept in the order their names were first added; adding
/// under a present name replaces the value in place.
pub struct NamedMap<P> {
    entries: Vec<(String, P)>,
}

impl<P> NamedMap<P> {
    #[verifier::type_invariant]
    closed spec fn wf(self) -> bool {
        names_distinct(self.entries@)
    }

    /// The names, in the order they were first added.
    pub closed spec fn names_view(self) -> Seq<Seq<char>> {
        name_list(self.entries@)
    }

    /// Whether `name` is present.
    pub closed spec fn has(self, name: Seq<char>) -> bool {
        find_name(self.entries@, name) is Some
    }

    /// The value under `name` (meaningful when present).
    pub closed spec fn value_of(self, name: Seq<char>) -> P {
        self.entries@[find_name(self.entries@, name).unwrap()].1
    }

    /// An empty map.
    pub fn new() -> (r: Self)
        ensures
            r.names_view() == Seq::<Seq<char>>::empty(),
            forall|n: Seq<char>| !r.has(n),
    {
        NamedMap { entries: Vec::new() }
    }

    fn position(&self, name: &str) -> (r: Option<usize>)
        ensures
            r matches Some(i) ==> i < self.entries@.len() && self.entries@[i as int].0@ == name@,
            r is None ==> forall|i: int|
                0 <= i < self.entries@.len() ==> (#[trigger] self.entries@[i]).0@ != name@,
    {
        let mut i: usize = 0;
        while i < self.entries.len()
            invariant
                i <= self.entries@.len(),
                forall|j: int| 0 <= j < i ==> (#[trigger] self.entries@[j]).0@ != name@,
            decreases self.entries@.len() - i,
        {
            if str_eq(self.entries[i].0.as_str(), name) {
                return Some(i);
            }
            i = i + 1;
        }
        None
    }

    proof fn lemma_find(self, i: int)
        requires
            names_distinct(self.entries@),
            0 <= i < self.entries@.len(),
        ensures
            find_name(self.entries@, self.entries@[i].0@) == Some(i),
    {
        let e = self.entries@;
        assert(0 <= i < e.len() && e[i].0@ == e[i].0@);
        let k = choose|k: int| 0 <= k < e.len() && (#[trigger] e[k]).0@ == e[i].0@;
        if k != i {
            if k < i {
                assert(e[k].0@ != e[i].0@);
            } else {
                assert(e[i].0@ != e[k].0@);
            }
        }
    }

    /// Adds `value` under `name`, replacing any value already there.
    pub fn insert(&mut self, name: String, value: P)
        ensures
            final(self).has(name@),
            final(self).value_of(name@) == value,
            forall|n: Seq<char>| n != name@ ==> (final(self).has(n) == old(self).has(n)),
            forall|n: Seq<char>|
                n != name@ && old(self).has(n) ==> final(self).value_of(n) == old(self).value_of(n),
            old(self).has(name@) ==> final(self).names_view() == old(self).names_view(),
            !old(self).has(name@) ==> final(self).names_view() == old(self).names_view().push(
                name@,
            ),
    {
        proof {
            use_type_invariant(&*self);
        }
        let ghost old_e = self.entries@;
        match self.position(name.as_str()) {
            Some(i) => {
                let mut entries: Vec<(String, P)> = Vec::new();
                std::mem::swap(&mut entries, &mut self.entries);
                entries.set(i, (name, value));
                let ghost e = entries@;
                proof {
                    assert(names_distinct(e)) by {
                        assert forall|a: int, b: int| 0 <= a < b < e.len() implies (
                        #[trigger] e[a]).0@ != (#[trigger] e[b]).0@ by {
                            assert(old_e[a].0@ != old_e[b].0@);
                        }
                    }
                    assert(name_list(e) =~= name_list(old_e));
                }
                self.entries = entries;
                proof {
                    self.lemma_find(i as int);
                    assert forall|n: Seq<char>| n != name@ implies (self.has(n) == old(self).has(
                        n,
                    )) && (old(self).has(n) ==> self.value_of(n) == old(self).value_of(n)) by {
                        if old(self).has(n) {
                            let k = find_name(old_e, n).unwrap();
                            assert(0 <= k < old_e.len() && old_e[k].0@ == n);
                            old(self).lemma_find(k);
                            assert(e[k] == old_e[k]);
                            self.lemma_find(k);
                        }
                        if self.has(n) {
                            let k = find_name(e, n).unwrap();
                            assert(0 <= k < e.len() && e[k].0@ == n);
                            assert(k != i);
                            assert(old_e[k] == e[k]);
                        }
                    }
                }
            },
            None => {
                let mut entries: Vec<(String, P)> = Vec::new();
                std::mem::swap(&mut entries, &mut self.entries);
                entries.push((name, value));
                let ghost e = entries@;
                proof {
                    assert(names_distinct(e)) by {
                        assert forall|a: int, b: int| 0 <= a < b < e.len() implies (
                        #[trigger] e[a]).0@ != (#[trigger] e[b]).0@ by {
                            if b < old_e.len() {
                                assert(old_e[a].0@ != old_e[b].0@);
                            }
                        }
                    }
                    assert(name_list(e) =~= name_list(old_e).push(name@));
                    assert(!old(self).has(name@));
                }
                self.entries = entries;
                proof {
                    self.lemma_find(old_e.len() as int);
                    assert forall|n: Seq<char>| n != name@ implies (self.has(n) == old(self).has(
                        n,
                    )) && (old(self).has(n) ==> self.value_of(n) == old(self).value_of(n)) by {
                        if old(self).has(n) {
                            let k = find_name(old_e, n).unwrap();
                            assert(0 <= k < old_e.len() && old_e[k].0@ == n);
                            old(self).lemma_find(k);
                            assert(e[k] == old_e[k]);
                            self.lemma_find(k);
                        }
                        if self.has(n) {
                            let k = find_name(e, n).unwrap();
                            assert(0 <= k < e.len() && e[k].0@ == n);
                            assert(k < old_e.len());
                            assert(old_e[k] == e[k]);
                        }
                    }
                }
            },
        }
    }

    /// The value under `name`, if present.
    pub fn get(&self, name: &str) -> (r: Option<&P>)
        ensures
            r is Some <==> self.has(name@),
            r matches Some(v) ==> *v == self.value_of(name@),
    {
        proof {
            use_type_invariant(self);
        }
        match self.position(name) {
            Some(i) => {
                proof {
                    self.lemma_find(i as int);
                }
                Some(&self.entries[i].1)
            },
            None => None,
        }
    }

    /// Whether `name` is present.
    pub fn contains_key(&self, name: &str) -> (r: bool)
        ensures
            r == self.has(name@),
    {
        self.get(name).is_some()
    }

    /// The names, in the order they were first added.
    pub fn names(&self) -> (r: Vec<String>)
        ensures
            strings_chars(r@) == self.names_view(),
    {
        let mut out: Vec<String> = Vec::new();
        let mut i: usize = 0;
        while i < self.entries.len()
            invariant
                i <= self.entries@.len(),
                strings_chars(out@) == name_list(self.entries@).take(i as int),
            decreases self.entries@.len() - i,
        {
            let ghost before = strings_chars(out@);
            out.push(self.entries[i].0.clone());
            proof {
                assert(strings_chars(out@) =~= before.push(self.entries@[i as int].0@));
                assert(name_list(self.entries@).take(i + 1) =~= name_list(self.entries@).take(
                    i as int,
                ).push(self.entries@[i as int].0@));
            }
            i = i + 1;
        }
        proof {
            assert(name_list(self.entries@).take(i as int) =~= name_list(self.entries@));
        }
        out
    }

    /// The first name added, if any.
    pub fn first_name(&self) -> (r: Option<String>)
        ensures
            self.names_view().len() == 0 ==> r is None,
            self.names_view().len() > 0 ==> (r matches Some(n) && n@ == self.names_view()[0]),
    {
        if self.entries.len() == 0 {
            None
        } else {
            Some(self.entries[0].0.clone())
        }
    }

    /// A name is present exactly when it is listed.
    pub proof fn law_present_iff_listed(self, name: Seq<char>)
        ensures
            self.has(name) <==> self.names_view().contains(name),
    {
        let e = self.entries@;
        if self.has(name) {
            let k = find_name(e, name).unwrap();
            assert(0 <= k < e.len() && e[k].0@ == name);
            assert(self.names_view()[k] == name);
        }
        if self.names_view().contains(name) {
            let k = choose|k: int| 0 <= k < self.names_view().len() && self.names_view()[k] == name;
            assert(e[k].0@ == name);
        }
    }
}

// ── image providers ─────────────────────────────────────────────────────────

/// Why no image provider could be chosen.
#[derive(Debug, Clone, PartialEq, Eq)]
pub enum RouteError {
    /// No provider has the requested name.
    ProviderNotFound(String),
    /// No default provider was set.
    NoDefaultProvider,
}

impl RouteError {
    /// Human-readable description.
    pub fn message(&self) -> (r: String)
        ensures
            r@ == match self {
                RouteError::ProviderNotFound(n) => "provider not found: '"@ + n@ + "'"@,
                RouteError::NoDefaultProvider => "no default provider configured"@,
            },
    {
        match self {
            RouteError::ProviderNotFound(n) => {
                let mut s = String::from_str("provider not found: '");
                s.append(n.as_str());
                s.append("'");
                s
            },
            RouteError::NoDefaultProvider => String::from_str("no default provider configured"),
        }
    }
}

/// Image providers by name, with an optional default that is always one of
/// them.
pub struct ImageRouter<P> {
    providers: NamedMap<P>,
    default: Option<String>,
}

impl<P> ImageRouter<P> {
    #[verifier::type_invariant]
    closed spec fn default_known(self) -> bool {
        self.default matches Some(d) ==> self.providers.has(d@)
    }

    /// The providers.
    pub closed spec fn providers_view(self) -> NamedMap<P> {
        self.providers
    }

    /// The default provider's name.
    pub closed spec fn default_view(self) -> Option<Seq<char>> {
        match self.default {
            Some(d) => Some(d@),
            None => None,
        }
    }

    /// A router without providers.
    pub fn new() -> (r: Self)
        ensures
            forall|n: Seq<char>| !r.providers_view().has(n),
            r.default_view() is None,
    {
        ImageRouter { providers: NamedMap::new(), default: None }
    }

    /// Adds a provider under its name, replacing one of the same name.
    pub fn add(&mut self, name: String, provider: P)
        ensures
            final(self).providers_view().has(name@),
            final(self).providers_view().value_of(name@) == provider,
            forall|n: Seq<char>|
                n != name@ ==> (final(self).providers_view().has(n) == old(
                    self,
                ).providers_view().has(n)),
            final(self).default_view() == old(self).default_view(),
    {
        proof {
            use_type_invariant(&*self);
        }
        let mut d: Option<String> = None;
        std::mem::swap(&mut d, &mut self.default);
        let mut providers = NamedMap::new();
        std::mem::swap(&mut providers, &mut self.providers);
        providers.insert(name, provider);
        self.providers = providers;
        self.default = d;
    }

    /// Makes `name` the default if such a provider exists; says whether it
    /// did.
    pub fn set_default(&mut self, name: &str) -> (r: bool)
        ensures
            r == old(self).providers_view().has(name@),
            r ==> final(self).default_view() == Some(name@),
            !r ==> final(self).default_view() == old(self).default_view(),
            final(self).providers_view() == old(self).providers_view(),
    {
        if self.providers.contains_key(name) {
            self.default = Some(String::from_str(name));
            true
        } else {
            false
        }
    }

    /// Whether a provider has this name.
    pub fn has_provider(&self, name: &str) -> (r: bool)
        ensures
            r == self.providers_view().has(name@),
    {
        self.providers.contains_key(name)
    }

    /// The provider names.
    pub fn provider_names(&self) -> (r: Vec<String>)
        ensures
            strings_chars(r@) == self.providers_view().names_view(),
    {
        self.providers.names()
    }

    /// The provider called `name`.
    pub fn provider(&self, name: &str) -> (r: Result<&P, RouteError>)
        ensures
            self.providers_view().has(name@) ==> (r matches Ok(p) && *p
                == self.providers_view().value_of(name@)),
            !self.providers_view().has(name@) ==> (r matches Err(RouteError::ProviderNotFound(n))
                && n@ == name@),
    {
        match self.providers.get(name) {
            Some(p) => Ok(p),
            None => Err(RouteError::ProviderNotFound(String::from_str(name))),
        }
    }

    /// The default provider.
    pub fn default_provider(&self) -> (r: Result<&P, RouteError>)
        ensures
            self.default_view() matches Some(d) ==> (r matches Ok(p) && *p
                == self.providers_view().value_of(d)),
            self.default_view() is None ==> r == Err::<&P, RouteError>(
                RouteError::NoDefaultProvider,
            ),
    {
        proof {
            use_type_invariant(self);
        }
        match &self.default {
            Some(d) => match self.providers.get(d.as_str()) {
                Some(p) => Ok(p),
                None => Err(RouteError::ProviderNotFound(d.clone())),
            },
            None => Err(RouteError::NoDefaultProvider),
        }
    }
}

// ── language-model providers ────────────────────────────────────────────────

/// The text before and after the first `/` of `t`, if it has one
/// (`str::split_once`).
pub open spec fn split_slash(t: Seq<u8>) -> Option<(Seq<u8>, Seq<u8>)> {
    match crate::text::find(t, seq![47u8]) {
        Some(i) => Some((t.subrange(0, i), t.subrange(i + 1, t.len() as int))),
        None => None,
    }
}

/// A model name after alias resolution.
pub open spec fn alias_of(aliases: NamedMap<String>, model: Seq<char>) -> Seq<char> {
    if aliases.has(model) {
        aliases.value_of(model)@
    } else {
        model
    }
}

/// Where a model name goes: a `provider/model` name to that provider when
/// it is registered; otherwise the whole (alias-resolved) name to the
/// default provider, or failing that to the first registered provider; an
/// error when there is none.
pub open spec fn resolve_spec<P>(
    aliases: NamedMap<String>,
    providers: NamedMap<P>,
    default: Option<Seq<char>>,
    model: Seq<char>,
) -> Result<(Seq<char>, Seq<char>), Seq<char>> {
    let resolved = alias_of(aliases, model);
    let by_prefix = match split_slash(crate::text::bytes_of(resolved)) {
        Some((p, r)) => if providers.has(vstd::utf8::decode_utf8(p)) {
            Some((vstd::utf8::decode_utf8(p), vstd::utf8::decode_utf8(r)))
        } else {
            None
        },
        None => None,
    };
    match by_prefix {
        Some(pr) => Ok(pr),
        None => match default {
            Some(d) => Ok((d, resolved)),
            None => if providers.names_view().len() > 0 {
                Ok((providers.names_view()[0], resolved))
            } else {
                Err("No provider found for model: "@ + model)
            },
        },
    }
}

/// Language-model providers by name, with a default and model aliases.
pub struct LlmRouter<P> {
    providers: NamedMap<P>,
    default_provider: Option<String>,
    aliases: NamedMap<String>,
}

/// Abstract value of a pair of strings or an error text.
pub open spec fn pair_view(r: Result<(String, String), String>) -> Result<
    (Seq<char>, Seq<char>),
    Seq<char>,
> {
    match r {
        Ok(p) => Ok((p.0@, p.1@)),
        Err(m) => Err(m@),
    }
}

impl<P> LlmRouter<P> {
    /// The providers.
    pub closed spec fn providers_view(self) -> NamedMap<P> {
        self.providers
    }

    /// The aliases.
    pub closed spec fn aliases_view(self) -> NamedMap<String> {
        self.aliases
    }

    /// The default provider's name.
    pub closed spec fn default_view(self) -> Option<Seq<char>> {
        match self.default_provider {
            Some(d) => Some(d@),
            None => None,
        }
    }

    /// A router without providers, default or aliases.
    pub fn new() -> (r: Self)
        ensures
            forall|n: Seq<char>| !r.providers_view().has(n),
            forall|n: Seq<char>| !r.aliases_view().has(n),
            r.providers_view().names_view().len() == 0,
            r.default_view() is None,
    {
        LlmRouter { providers: NamedMap::new(), default_provider: None, aliases: NamedMap::new() }
    }

    /// Registers a provider under `name`, replacing one of the same name.
    pub fn register(&mut self, name: String, provider: P)
        ensures
            final(self).providers_view().has(name@),
            final(self).providers_view().value_of(name@) == provider,
            forall|n: Seq<char>|
                n != name@ ==> (final(self).providers_view().has(n) == old(
                    self,
                ).providers_view().has(n)),
            final(self).default_view() == old(self).default_view(),
            final(self).aliases_view() == old(self).aliases_view(),
    {
        self.providers.insert(name, provider);
    }

    /// Sets the default provider (used for names without a registered
    /// provider prefix).
    pub fn set_default(&mut self, name: String)
        ensures
            final(self).default_view() == Some(name@),
            final(self).providers_view() == old(self).providers_view(),
            final(self).aliases_view() == old(self).aliases_view(),
    {
        self.default_provider = Some(name);
    }

    /// Makes `alias` stand for `target`.
    pub fn add_alias(&mut self, alias: String, target: String)
        ensures
            final(self).aliases_view().has(alias@),
            final(self).aliases_view().value_of(alias@) == target,
            forall|n: Seq<char>|
                n != alias@ ==> (final(self).aliases_view().has(n) == old(self).aliases_view().has(
                    n,
                )),
            final(self).providers_view() == old(self).providers_view(),
            final(self).default_view() == old(self).default_view(),
    {
        self.aliases.insert(alias, target);
    }

    /// The provider called `name`.
    pub fn get_provider(&self, name: &str) -> (r: Option<&P>)
        ensures
            r is Some <==> self.providers_view().has(name@),
            r matches Some(p) ==> *p == self.providers_view().value_of(name@),
    {
        self.providers.get(name)
    }

    /// The registered provider names.
    pub fn provider_names(&self) -> (r: Vec<String>)
        ensures
            strings_chars(r@) == self.providers_view().names_view(),
    {
        self.providers.names()
    }

    /// Resolves a model name to (provider name, model name) as
    /// `resolve_spec` describes.
    pub fn resolve(&self, model: &str) -> (r: Result<(String, String), String>)
        ensures
            pair_view(r) == resolve_spec(
                self.aliases_view(),
                self.providers_view(),
                self.default_view(),
                model@,
            ),
    {
        let resolved: String = match self.aliases.get(model) {
            Some(t) => t.clone(),
            None => String::from_str(model),
        };
        let rs = resolved.as_str();
        let b = rs.as_bytes();
        let slash = "/";
        proof {
            reveal_strlit("/");
            crate::text::lemma_ascii_bytes(slash@);
            assert(slash.spec_bytes() =~= seq![47u8]);
            is_char_boundary_start_end_of_seq(b@);
        }
        let bl = b.len();
        if let Some(i) = crate::text::find_from(b, slash.as_bytes(), 0) {
            proof {
                crate::text::lemma_match_start_boundary(b@, i as int, slash.spec_bytes());
                crate::text::lemma_match_boundaries(b@, i as int, slash.spec_bytes());
            }
            let provider = substr(rs, 0, i);
            let rest = substr(rs, i + 1, bl);
            if self.providers.contains_key(provider) {
                return Ok((String::from_str(provider), String::from_str(rest)));
            }
        }
        match &self.default_provider {
            Some(d) => Ok((d.clone(), resolved)),
            None => match self.providers.first_name() {
                Some(n) => Ok((n, resolved)),
                None => {
                    proof {
                        reveal_strlit("No provider found for model: ");
                    }
                    let mut m = String::from_str("No provider found for model: ");
                    m.append(model);
                    Err(m)
                },
            },
        }
    }

    /// The provider and model name a request for `model` goes to.
    pub fn route(&self, model: &str) -> (r: Result<(&P, String), String>)
        ensures
            resolve_spec(self.aliases_view(), self.providers_view(), self.default_view(), model@) matches Ok(
                pm,
            ) ==> (self.providers_view().has(pm.0) ==> (r matches Ok(pr) && *pr.0
                == self.providers_view().value_of(pm.0) && pr.1@ == pm.1)),
            resolve_spec(self.aliases_view(), self.providers_view(), self.default_view(), model@) matches Ok(
                pm,
            ) ==> (!self.providers_view().has(pm.0) ==> (r matches Err(m) && m@
                == "Provider not found: "@ + pm.0)),
            resolve_spec(self.aliases_view(), self.providers_view(), self.default_view(), model@) matches Err(
                e,
            ) ==> (r matches Err(m) && m@ == e),
    {
        let (name, model_name) = match self.resolve(model) {
            Ok(pm) => pm,
            Err(e) => {
                return Err(e);
            },
        };
        match self.providers.get(name.as_str()) {
            Some(p) => Ok((p, model_name)),
            None => {
                proof {
                    reveal_strlit("Provider not found: ");
                }
                let mut m = String::from_str("Provider not found: ");
                m.append(name.as_str());
                Err(m)
            },
        }
    }

    /// The provider for embeddings: the default, else the first registered.
    pub fn embedding_provider(&self) -> (r: Result<String, String>)
        ensures
            self.default_view() matches Some(d) ==> (r matches Ok(n) && n@ == d),
            self.default_view() is None && self.providers_view().names_view().len() > 0 ==> (
            r matches Ok(n) && n@ == self.providers_view().names_view()[0]),
            self.default_view() is None && self.providers_view().names_view().len() == 0 ==> (
            r matches Err(m) && m@ == "No providers registered"@),
    {
        match &self.default_provider {
            Some(d) => Ok(d.clone()),
            None => match self.providers.first_name() {
                Some(n) => Ok(n),
                None => {
                    proof {
                        reveal_strlit("No providers registered");
                    }
                    Err(String::from_str("No providers registered"))
                },
            },
        }
    }
}

} // verus!
