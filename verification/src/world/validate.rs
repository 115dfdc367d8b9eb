//! The checks that a world must pass before it is worth running.

use super::prefix::prefix_in;
use super::topology::{declared, is_declared, norm, norm_pair};
use super::{AppSpecView, LinkSpec, Prefix, SwitchSpec, World, WorldError, WorldFault, WorldView};
use crate::chars::{decimal, push_decimal, push_text};
use vstd::prelude::*;

verus! {

/// A complaint around one number.
pub open spec fn about(before: Seq<char>, n: u32, after: Seq<char>) -> Seq<char> {
    before + decimal(n as nat) + after
}

/// A complaint around two numbers.
pub open spec fn about_two(
    before: Seq<char>,
    n: u32,
    mid: Seq<char>,
    m: u32,
    after: Seq<char>,
) -> Seq<char> {
    before + decimal(n as nat) + mid + decimal(m as nat) + after
}

/// A complaint around one number.
pub(crate) fn say(before: &str, n: u32, after: &str) -> (r: String)
    ensures
        r@ == about(before@, n, after@),
{
    let mut out = String::new();
    push_text(&mut out, before);
    push_decimal(&mut out, n as u64);
    push_text(&mut out, after);
    assert(out@ =~= about(before@, n, after@));
    out
}

/// A complaint around two numbers.
pub(crate) fn say_two(before: &str, n: u32, mid: &str, m: u32, after: &str) -> (r: String)
    ensures
        r@ == about_two(before@, n, mid@, m, after@),
{
    let mut out = String::new();
    push_text(&mut out, before);
    push_decimal(&mut out, n as u64);
    push_text(&mut out, mid);
    push_decimal(&mut out, m as u64);
    push_text(&mut out, after);
    assert(out@ =~= about_two(before@, n, mid@, m, after@));
    out
}

/// The first complaint about the switches from place `i` on.
pub open spec fn switch_fault(s: Seq<SwitchSpec>, i: int) -> Option<WorldFault>
    decreases s.len() - i,
{
    if i >= s.len() {
        None
    } else if declared(s.take(i), s[i].id) {
        Some(WorldFault::Invalid(about("switch "@, s[i].id, " declared twice"@)))
    } else {
        switch_fault(s, i + 1)
    }
}

/// Whether one of the first `n` links has the same ends as another link.
pub open spec fn linked_before(links: Seq<LinkSpec>, n: int, l: LinkSpec) -> bool {
    exists|j: int|
        0 <= j < n && norm_pair((#[trigger] links[j]).a, links[j].b) == norm_pair(l.a, l.b)
}

/// The first complaint about the links from place `i` on.
pub open spec fn link_fault(switches: Seq<SwitchSpec>, links: Seq<LinkSpec>, i: int) -> Option<
    WorldFault,
>
    decreases links.len() - i,
{
    if i >= links.len() {
        None
    } else {
        let l = links[i];
        if !declared(switches, l.a) || !declared(switches, l.b) {
            Some(
                WorldFault::Invalid(
                    about_two("link "@, l.a, "-"@, l.b, " names an unknown switch"@),
                ),
            )
        } else if l.a == l.b {
            Some(WorldFault::Invalid(about("switch "@, l.a, " has a link to itself"@)))
        } else if linked_before(links, i, l) {
            Some(WorldFault::Invalid(about_two("link "@, l.a, "-"@, l.b, " declared twice"@)))
        } else {
            link_fault(switches, links, i + 1)
        }
    }
}

/// Whether one of the first `n` apps has an id.
pub open spec fn app_before(apps: Seq<AppSpecView>, n: int, id: u32) -> bool {
    exists|j: int| 0 <= j < n && (#[trigger] apps[j]).id == id
}

/// The prefix of an app that has one.
pub open spec fn app_prefix(a: AppSpecView) -> Prefix {
    prefix_in(a.prefix)->Ok_0
}

/// The first of the apps between `j` and `n` whose prefix overlaps another; `n`
/// if there is none.
pub open spec fn clash_from(apps: Seq<AppSpecView>, j: int, n: int, p: Prefix) -> int
    decreases n - j,
{
    if j >= n {
        n
    } else if p.meets(app_prefix(apps[j])) {
        j
    } else {
        clash_from(apps, j + 1, n, p)
    }
}

/// The complaint that two apps claim the same addresses.
pub open spec fn overlap_words(a: AppSpecView, b: AppSpecView) -> Seq<char> {
    about("app "@, a.id, " prefix "@) + app_prefix(a).written() + about(
        " overlaps app "@,
        b.id,
        " prefix "@,
    ) + app_prefix(b).written()
}

/// The first complaint about the apps from place `i` on.
pub open spec fn app_fault(switches: Seq<SwitchSpec>, apps: Seq<AppSpecView>, i: int) -> Option<
    WorldFault,
>
    decreases apps.len() - i,
{
    if i >= apps.len() {
        None
    } else {
        let a = apps[i];
        if app_before(apps, i, a.id) {
            Some(WorldFault::Invalid(about("app "@, a.id, " declared twice"@)))
        } else if !declared(switches, a.switch) {
            Some(
                WorldFault::Invalid(
                    about_two("app "@, a.id, " sits on unknown switch "@, a.switch, ""@),
                ),
            )
        } else {
            match prefix_in(a.prefix) {
                Err(m) => Some(WorldFault::Prefix(m)),
                Ok(p) => {
                    let j = clash_from(apps, 0, i, p);
                    if j < i {
                        Some(WorldFault::Invalid(overlap_words(a, apps[j])))
                    } else {
                        app_fault(switches, apps, i + 1)
                    }
                },
            }
        }
    }
}

impl WorldView {
    /// The first complaint about a world.
    pub open spec fn fault(self) -> Option<WorldFault> {
        if self.switches.len() == 0 {
            Some(WorldFault::Invalid("no switches"@))
        } else if switch_fault(self.switches, 0) is Some {
            switch_fault(self.switches, 0)
        } else if link_fault(self.switches, self.links, 0) is Some {
            link_fault(self.switches, self.links, 0)
        } else if !self.is_connected() {
            Some(WorldFault::Invalid("topology is not connected"@))
        } else if app_fault(self.switches, self.apps, 0) is Some {
            app_fault(self.switches, self.apps, 0)
        } else if self.apps.len() < 2 {
            Some(WorldFault::Invalid("a world needs at least two apps"@))
        } else if self.params.warmup_ms >= self.params.duration_ms {
            Some(WorldFault::Invalid("warmup is not shorter than the run"@))
        } else {
            None
        }
    }
}

fn invalid(m: &str) -> (r: WorldError)
    ensures
        r@ == WorldFault::Invalid(m@),
{
    WorldError::Invalid(m.to_owned())
}

impl World {
    fn check_switches(&self) -> (r: Result<(), WorldError>)
        ensures
            match switch_fault(self@.switches, 0) {
                Some(f) => r matches Err(e) && e@ == f,
                None => r is Ok,
            },
    {
        let mut i: usize = 0;
        while i < self.switches.len()
            invariant
                i <= self.switches@.len(),
                switch_fault(self@.switches, 0) == switch_fault(self@.switches, i as int),
            decreases self.switches@.len() - i,
        {
            let id: u32 = self.switches[i].id;
            let mut j: usize = 0;
            while j < i
                invariant
                    j <= i < self.switches@.len(),
                    id == self.switches@[i as int].id,
                    switch_fault(self@.switches, 0) == switch_fault(self@.switches, i as int),
                    forall|k: int| 0 <= k < j ==> (#[trigger] self.switches@[k]).id != id,
                decreases i - j,
            {
                if self.switches[j].id == id {
                    assert(self@.switches.take(i as int)[j as int].id == id);
                    assert(declared(self@.switches.take(i as int), id));
                    return Err(WorldError::Invalid(say("switch ", id, " declared twice")));
                }
                j += 1;
            }
            assert(!declared(self@.switches.take(i as int), id)) by {
                if declared(self@.switches.take(i as int), id) {
                    let t = self@.switches.take(i as int);
                    let k = choose|k: int| 0 <= k < t.len() && (#[trigger] t[k]).id == id;
                    assert(self.switches@[k].id == id);
                }
            }
            i += 1;
        }
        Ok(())
    }

    fn check_links(&self) -> (r: Result<(), WorldError>)
        ensures
            match link_fault(self@.switches, self@.links, 0) {
                Some(f) => r matches Err(e) && e@ == f,
                None => r is Ok,
            },
    {
        let mut i: usize = 0;
        while i < self.links.len()
            invariant
                i <= self.links@.len(),
                link_fault(self@.switches, self@.links, 0) == link_fault(
                    self@.switches,
                    self@.links,
                    i as int,
                ),
            decreases self.links@.len() - i,
        {
            let l = self.links[i];
            if !is_declared(&self.switches, l.a) || !is_declared(&self.switches, l.b) {
                return Err(
                    WorldError::Invalid(
                        say_two("link ", l.a, "-", l.b, " names an unknown switch"),
                    ),
                );
            }
            if l.a == l.b {
                return Err(WorldError::Invalid(say("switch ", l.a, " has a link to itself")));
            }
            let key = norm(l.a, l.b);
            let mut j: usize = 0;
            while j < i
                invariant
                    j <= i < self.links@.len(),
                    l == self.links@[i as int],
                    key == norm_pair(l.a, l.b),
                    l.a != l.b,
                    declared(self@.switches, l.a),
                    declared(self@.switches, l.b),
                    link_fault(self@.switches, self@.links, 0) == link_fault(
                        self@.switches,
                        self@.links,
                        i as int,
                    ),
                    forall|k: int|
                        0 <= k < j ==> norm_pair(
                            (#[trigger] self.links@[k]).a,
                            self.links@[k].b,
                        ) != key,
                decreases i - j,
            {
                let other = norm(self.links[j].a, self.links[j].b);
                if other.0 == key.0 && other.1 == key.1 {
                    assert(norm_pair(self@.links[j as int].a, self@.links[j as int].b)
                        == norm_pair(l.a, l.b));
                    assert(linked_before(self@.links, i as int, l));
                    return Err(
                        WorldError::Invalid(say_two("link ", l.a, "-", l.b, " declared twice")),
                    );
                }
                j += 1;
            }
            i += 1;
        }
        Ok(())
    }

    fn check_apps(&self) -> (r: Result<(), WorldError>)
        ensures
            match app_fault(self@.switches, self@.apps, 0) {
                Some(f) => r matches Err(e) && e@ == f,
                None => r is Ok,
            },
    {
        let ghost apps = self@.apps;
        let mut prefixes: Vec<Prefix> = Vec::new();
        let mut i: usize = 0;
        while i < self.apps.len()
            invariant
                i <= self.apps@.len(),
                apps == self@.apps,
                prefixes@.len() == i,
                forall|k: int|
                    0 <= k < i ==> prefix_in((#[trigger] apps[k]).prefix) == Ok::<
                        Prefix,
                        Seq<char>,
                    >(prefixes@[k]) && prefixes@[k].len <= 32,
                app_fault(self@.switches, apps, 0) == app_fault(self@.switches, apps, i as int),
            decreases self.apps@.len() - i,
        {
            let a = &self.apps[i];
            assert(apps[i as int] == a@);
            let mut j: usize = 0;
            while j < i
                invariant
                    j <= i < self.apps@.len(),
                    apps == self@.apps,
                    a@ == apps[i as int],
                    app_fault(self@.switches, apps, 0) == app_fault(
                        self@.switches,
                        apps,
                        i as int,
                    ),
                    forall|k: int| 0 <= k < j ==> (#[trigger] apps[k]).id != a.id,
                decreases i - j,
            {
                if self.apps[j].id == a.id {
                    assert(apps[j as int].id == a.id);
                    assert(app_before(apps, i as int, a.id));
                    return Err(WorldError::Invalid(say("app ", a.id, " declared twice")));
                }
                j += 1;
            }
            assert(!app_before(apps, i as int, a.id));
            if !is_declared(&self.switches, a.switch) {
                return Err(
                    WorldError::Invalid(
                        say_two("app ", a.id, " sits on unknown switch ", a.switch, ""),
                    ),
                );
            }
            let p = match Prefix::parse(a.prefix.as_str()) {
                Ok(p) => p,
                Err(e) => return Err(e),
            };
            let mut k: usize = 0;
            while k < i
                invariant
                    k <= i < self.apps@.len(),
                    apps == self@.apps,
                    a@ == apps[i as int],
                    prefixes@.len() == i,
                    forall|m: int|
                        0 <= m < i ==> prefix_in((#[trigger] apps[m]).prefix) == Ok::<
                            Prefix,
                            Seq<char>,
                        >(prefixes@[m]) && prefixes@[m].len <= 32,
                    prefix_in(a@.prefix) == Ok::<Prefix, Seq<char>>(p),
                    !app_before(apps, i as int, a.id),
                    declared(self@.switches, a.switch),
                    clash_from(apps, 0, i as int, p) == clash_from(apps, k as int, i as int, p),
                    app_fault(self@.switches, apps, 0) == app_fault(
                        self@.switches,
                        apps,
                        i as int,
                    ),
                decreases i - k,
            {
                assert(prefix_in(apps[k as int].prefix) == Ok::<Prefix, Seq<char>>(
                    prefixes@[k as int],
                ));
                if p.overlaps(&prefixes[k]) {
                    let mut out = say("app ", a.id, " prefix ");
                    let t = p.text();
                    push_text(&mut out, t.as_str());
                    let mid = say(" overlaps app ", self.apps[k].id, " prefix ");
                    push_text(&mut out, mid.as_str());
                    let u = prefixes[k].text();
                    push_text(&mut out, u.as_str());
                    assert(out@ =~= overlap_words(apps[i as int], apps[k as int]));
                    return Err(WorldError::Invalid(out));
                }
                k += 1;
            }
            prefixes.push(p);
            i += 1;
        }
        Ok(())
    }

    /// Every check that must hold before a world is worth running.
    pub fn validate(&self) -> (r: Result<(), WorldError>)
        ensures
            match self@.fault() {
                Some(f) => r matches Err(e) && e@ == f,
                None => r is Ok,
            },
    {
        if self.switches.len() == 0 {
            return Err(invalid("no switches"));
        }
        match self.check_switches() {
            Ok(()) => {},
            Err(e) => return Err(e),
        }
        match self.check_links() {
            Ok(()) => {},
            Err(e) => return Err(e),
        }
        if !self.is_connected() {
            return Err(invalid("topology is not connected"));
        }
        match self.check_apps() {
            Ok(()) => {},
            Err(e) => return Err(e),
        }
        if self.apps.len() < 2 {
            return Err(invalid("a world needs at least two apps"));
        }
        if self.params.warmup_ms >= self.params.duration_ms {
            return Err(invalid("warmup is not shorter than the run"));
        }
        Ok(())
    }
}

proof fn lemma_switches_unique(s: Seq<SwitchSpec>, i: int, j: int, k: int)
    requires
        0 <= i,
        switch_fault(s, i) is None,
        0 <= j < k < s.len(),
        i <= k,
    ensures
        s[j].id != s[k].id,
    decreases s.len() - i,
{
    if i == k {
        if s[j].id == s[k].id {
            assert(s.take(i)[j].id == s[i].id);
        }
    } else {
        lemma_switches_unique(s, i + 1, j, k);
    }
}

proof fn lemma_links_sound(switches: Seq<SwitchSpec>, links: Seq<LinkSpec>, i: int, k: int)
    requires
        0 <= i <= k < links.len(),
        link_fault(switches, links, i) is None,
    ensures
        declared(switches, links[k].a),
        declared(switches, links[k].b),
        links[k].a != links[k].b,
        !linked_before(links, k, links[k]),
    decreases links.len() - i,
{
    if i < k {
        lemma_links_sound(switches, links, i + 1, k);
    }
}

proof fn lemma_apps_apart(
    switches: Seq<SwitchSpec>,
    apps: Seq<AppSpecView>,
    i: int,
    k: int,
)
    requires
        0 <= i <= k < apps.len(),
        app_fault(switches, apps, i) is None,
    ensures
        !app_before(apps, k, apps[k].id),
        declared(switches, apps[k].switch),
        prefix_in(apps[k].prefix) is Ok,
        clash_from(apps, 0, k, app_prefix(apps[k])) >= k,
    decreases apps.len() - i,
{
    if i < k {
        lemma_apps_apart(switches, apps, i + 1, k);
    }
}

proof fn lemma_no_clash(apps: Seq<AppSpecView>, j: int, n: int, p: Prefix, m: int)
    requires
        j <= m < n,
        clash_from(apps, j, n, p) >= n,
    ensures
        !p.meets(app_prefix(apps[m])),
    decreases n - j,
{
    if j < m {
        lemma_no_clash(apps, j + 1, n, p, m);
    }
}

/// A world that passes is well declared and connected, and no address belongs to
/// two of its apps.
pub proof fn valid_worlds_are_sound(w: WorldView)
    requires
        w.fault() is None,
    ensures
        w.well_declared(),
        w.is_connected(),
        w.apps.len() >= 2,
        forall|j: int, k: int|
            0 <= j < k < w.apps.len() ==> (#[trigger] w.apps[j]).id != (#[trigger] w.apps[k]).id
                && !app_prefix(w.apps[k]).meets(app_prefix(w.apps[j])),
        forall|k: int|
            0 <= k < w.apps.len() ==> prefix_in((#[trigger] w.apps[k]).prefix) is Ok && declared(
                w.switches,
                w.apps[k].switch,
            ),
{
    assert forall|i: int, j: int| 0 <= i < j < w.switches.len() implies (
    #[trigger] w.switches[i]).id != (#[trigger] w.switches[j]).id by {
        lemma_switches_unique(w.switches, 0, i, j);
    }
    assert forall|k: int| 0 <= k < w.links.len() implies declared(
        w.switches,
        (#[trigger] w.links[k]).a,
    ) && declared(w.switches, w.links[k].b) && w.links[k].a != w.links[k].b by {
        lemma_links_sound(w.switches, w.links, 0, k);
    }
    assert forall|j: int, k: int| 0 <= j < k < w.links.len() implies norm_pair(
        (#[trigger] w.links[j]).a,
        w.links[j].b,
    ) != norm_pair((#[trigger] w.links[k]).a, w.links[k].b) by {
        lemma_links_sound(w.switches, w.links, 0, k);
    }
    assert forall|j: int, k: int| 0 <= j < k < w.apps.len() implies (#[trigger] w.apps[j]).id != (
    #[trigger] w.apps[k]).id && !app_prefix(w.apps[k]).meets(app_prefix(w.apps[j])) by {
        lemma_apps_apart(w.switches, w.apps, 0, k);
        lemma_no_clash(w.apps, 0, k, app_prefix(w.apps[k]), j);
    }
    assert forall|k: int| 0 <= k < w.apps.len() implies prefix_in(
        (#[trigger] w.apps[k]).prefix,
    ) is Ok && declared(w.switches, w.apps[k].switch) by {
        lemma_apps_apart(w.switches, w.apps, 0, k);
    }
}

} // verus!
