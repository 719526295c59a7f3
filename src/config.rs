//! Operator configuration, the TTL notation, and the challenge catalog
//! built from it.

use vstd::prelude::*;

use crate::models::clone_opt_string;
use crate::worker::Challenge;

verus! {

pub struct SettingsConfig {
    pub max_concurrent_challenges: u32,
    pub worker_count: u32,
    pub listen_on: String,
}

pub struct DiscordConfig {
    pub client_id: String,
    pub client_secret: String,
    pub redirect_url: String,
    pub server_id: String,
}

pub struct DatabaseConfig {
    pub file_path: String,
}

pub struct DeployerConfig {
    pub path: String,
}

pub struct ChallengeConfig {
    pub name: String,
    pub description: Option<String>,
    /// Time to live in seconds.
    pub ttl: u32,
    /// Name of an entry of `InstancerConfig::deployers`.
    pub deployer: String,
}

/// The whole configuration; `deployers` and `challenges` are keyed by name
/// and by challenge id.
pub struct InstancerConfig {
    pub settings: SettingsConfig,
    pub discord: DiscordConfig,
    pub database: DatabaseConfig,
    pub deployers: Vec<(String, DeployerConfig)>,
    pub challenges: Vec<(String, ChallengeConfig)>,
}

impl Clone for Challenge {
    fn clone(&self) -> (r: Challenge)
        ensures
            r == *self,
    {
        Challenge {
            id: self.id.clone(),
            name: self.name.clone(),
            description: clone_opt_string(&self.description),
            ttl: self.ttl,
            deployer_path: self.deployer_path.clone(),
        }
    }
}

pub open spec fn is_digit(c: char) -> bool {
    48 <= c as u32 <= 57
}

pub open spec fn digit_value(c: char) -> nat {
    (c as u32 - 48) as nat
}

pub open spec fn unit_seconds(c: char) -> nat {
    if c == 's' {
        1
    } else if c == 'm' {
        60
    } else if c == 'h' {
        3600
    } else {
        86400
    }
}

/// `s` is a TTL: a number without leading zero, then `s`, `m`, `h` or `d`.
pub open spec fn ttl_syntax(s: Seq<char>) -> bool {
    &&& s.len() >= 2
    &&& is_digit(s[0]) && s[0] != '0'
    &&& forall|i: int| 1 <= i < s.len() - 1 ==> is_digit(#[trigger] s[i])
    &&& s.last() == 's' || s.last() == 'm' || s.last() == 'h' || s.last() == 'd'
}

/// The value of a string of decimal digits.
pub open spec fn digits_value(s: Seq<char>) -> nat
    decreases s.len(),
{
    if s.len() == 0 {
        0
    } else {
        digits_value(s.drop_last()) * 10 + digit_value(s.last())
    }
}

/// The TTL written `s`, in seconds.
pub open spec fn ttl_seconds(s: Seq<char>) -> nat {
    digits_value(s.drop_last()) * unit_seconds(s.last())
}

proof fn lemma_digits_value_grows(s: Seq<char>, j: int, k: int)
    requires
        0 <= j <= k <= s.len(),
    ensures
        digits_value(s.subrange(0, j)) <= digits_value(s.subrange(0, k)),
    decreases k - j,
{
    if j < k {
        lemma_digits_value_grows(s, j, k - 1);
        assert(s.subrange(0, k).drop_last() =~= s.subrange(0, k - 1));
    }
}

/// Reads a TTL such as `90s`, `15m`, `2h` or `1d` into seconds; `None` where
/// `s` is no TTL or its value does not fit in a `u32`.
pub fn parse_ttl(s: &str) -> (r: Option<u32>)
    ensures
        r == if ttl_syntax(s@) && ttl_seconds(s@) <= u32::MAX {
            Some(ttl_seconds(s@) as u32)
        } else {
            None
        },
{
    let n = s.unicode_len();
    if n < 2 {
        return None;
    }
    let first = s.get_char(0);
    if first == '0' || !((first as u32) >= 48 && (first as u32) <= 57) {
        return None;
    }
    let mut value: u64 = 0;
    let mut i: usize = 0;
    while i < n - 1
        invariant
            n == s@.len(),
            n >= 2,
            1 <= i + 1 <= n,
            is_digit(s@[0]) && s@[0] != '0',
            i <= n - 1,
            forall|j: int| 1 <= j < i ==> is_digit(#[trigger] s@[j]),
            value == digits_value(s@.subrange(0, i as int)),
            value <= u32::MAX,
        decreases n - 1 - i,
    {
        let c = s.get_char(i);
        let code = c as u32;
        if !(code >= 48 && code <= 57) {
            return None;
        }
        proof {
            assert(s@.subrange(0, i + 1).drop_last() =~= s@.subrange(0, i as int));
        }
        value = value * 10 + (code - 48) as u64;
        if value > u32::MAX as u64 {
            proof {
                lemma_digits_value_grows(s@, i + 1, n - 1);
                assert(s@.drop_last() =~= s@.subrange(0, n - 1));
                let unit = unit_seconds(s@.last());
                assert(digits_value(s@.drop_last()) * unit >= digits_value(s@.drop_last())) by (nonlinear_arith)
                    requires unit >= 1;
            }
            return None;
        }
        i += 1;
    }
    proof {
        assert(s@.drop_last() =~= s@.subrange(0, n - 1));
    }
    let last = s.get_char(n - 1);
    let unit: u64 = if last == 's' {
        1
    } else if last == 'm' {
        60
    } else if last == 'h' {
        3600
    } else if last == 'd' {
        86400
    } else {
        return None;
    };
    assert(value * unit <= 4294967295 * 86400) by (nonlinear_arith)
        requires value <= 4294967295, unit <= 86400;
    let seconds = value * unit;
    if seconds > u32::MAX as u64 {
        None
    } else {
        Some(seconds as u32)
    }
}

/// The first deployer named `name`.
pub open spec fn deployer_named(deployers: Seq<(String, DeployerConfig)>, name: Seq<char>) -> Option<DeployerConfig>
    decreases deployers.len(),
{
    if deployers.len() == 0 {
        None
    } else if deployers[0].0@ == name {
        Some(deployers[0].1)
    } else {
        deployer_named(deployers.subrange(1, deployers.len() as int), name)
    }
}

/// The challenges of the configuration whose deployer is configured, in
/// order, each with that deployer's path.
pub open spec fn resolved(challenges: Seq<(String, ChallengeConfig)>, deployers: Seq<(String, DeployerConfig)>) -> Seq<Challenge>
    decreases challenges.len(),
{
    if challenges.len() == 0 {
        Seq::empty()
    } else {
        let (id, cfg) = challenges.last();
        let init = resolved(challenges.drop_last(), deployers);
        match deployer_named(deployers, cfg.deployer@) {
            Some(d) => init.push(
                Challenge { id, name: cfg.name, description: cfg.description, ttl: cfg.ttl, deployer_path: d.path },
            ),
            None => init,
        }
    }
}

/// No two challenges share an id.
pub open spec fn unique_ids(cs: Seq<Challenge>) -> bool {
    forall|i: int, j: int| 0 <= i < cs.len() && 0 <= j < cs.len() && i != j ==> (#[trigger] cs[i]).id@ != (#[trigger] cs[j]).id@
}

/// No two entries share a key, as in the configuration's tables.
pub open spec fn unique_keys<T>(entries: Seq<(String, T)>) -> bool {
    forall|i: int, j: int|
        0 <= i < entries.len() && 0 <= j < entries.len() && i != j ==> (#[trigger] entries[i]).0@ != (#[trigger] entries[j]).0@
}

proof fn lemma_resolved_ids(challenges: Seq<(String, ChallengeConfig)>, deployers: Seq<(String, DeployerConfig)>)
    requires
        unique_keys(challenges),
    ensures
        unique_ids(resolved(challenges, deployers)),
        forall|i: int| 0 <= i < resolved(challenges, deployers).len() ==> exists|j: int|
            0 <= j < challenges.len() && (#[trigger] challenges[j]).0@ == (#[trigger] resolved(challenges, deployers)[i]).id@,
    decreases challenges.len(),
{
    if challenges.len() > 0 {
        let init = challenges.drop_last();
        let n = challenges.len() - 1;
        assert forall|i: int, j: int| 0 <= i < init.len() && 0 <= j < init.len() && i != j implies (#[trigger] init[i]).0@ != (#[trigger] init[j]).0@ by {
            assert(init[i] == challenges[i] && init[j] == challenges[j]);
        }
        lemma_resolved_ids(init, deployers);
        let r0 = resolved(init, deployers);
        let r = resolved(challenges, deployers);
        assert(challenges.last() == challenges[n]);
        assert forall|i: int| 0 <= i < r.len() implies exists|j: int|
            0 <= j < challenges.len() && (#[trigger] challenges[j]).0@ == (#[trigger] r[i]).id@ by {
            if i < r0.len() {
                assert(r[i] == r0[i]);
                let j = choose|j: int| 0 <= j < init.len() && (#[trigger] init[j]).0@ == (#[trigger] r0[i]).id@;
                assert(challenges[j] == init[j]);
            } else {
                assert(challenges[n].0@ == r[i].id@);
            }
        }
        assert forall|i: int, j: int| 0 <= i < r.len() && 0 <= j < r.len() && i != j implies (#[trigger] r[i]).id@ != (#[trigger] r[j]).id@ by {
            if i < r0.len() && j < r0.len() {
                assert(r[i] == r0[i] && r[j] == r0[j]);
                assert(r0[i] == r0[i] && r0[j] == r0[j]);
            } else if i < r0.len() {
                assert(r[i] == r0[i]);
                let k = choose|k: int| 0 <= k < init.len() && (#[trigger] init[k]).0@ == (#[trigger] r0[i]).id@;
                assert(challenges[k] == init[k] && challenges[n] == challenges[n]);
            } else {
                assert(r[j] == r0[j]);
                let k = choose|k: int| 0 <= k < init.len() && (#[trigger] init[k]).0@ == (#[trigger] r0[j]).id@;
                assert(challenges[k] == init[k] && challenges[n] == challenges[n]);
            }
        }
    }
}

proof fn lemma_kept_ids(challenges: Seq<Challenge>, present: Seq<bool>)
    requires
        unique_ids(challenges),
    ensures
        unique_ids(kept(challenges, present)),
        forall|i: int| 0 <= i < kept(challenges, present).len() ==> exists|j: int|
            0 <= j < challenges.len() && (#[trigger] challenges[j]).id@ == (#[trigger] kept(challenges, present)[i]).id@,
    decreases challenges.len(),
{
    if challenges.len() > 0 && present.len() > 0 {
        let init = challenges.drop_last();
        let n = challenges.len() - 1;
        assert forall|i: int, j: int| 0 <= i < init.len() && 0 <= j < init.len() && i != j implies (#[trigger] init[i]).id@ != (#[trigger] init[j]).id@ by {
            assert(init[i] == challenges[i] && init[j] == challenges[j]);
        }
        lemma_kept_ids(init, present.drop_last());
        let r0 = kept(init, present.drop_last());
        let r = kept(challenges, present);
        assert(challenges.last() == challenges[n]);
        assert forall|i: int| 0 <= i < r.len() implies exists|j: int|
            0 <= j < challenges.len() && (#[trigger] challenges[j]).id@ == (#[trigger] r[i]).id@ by {
            if i < r0.len() {
                assert(r[i] == r0[i]);
                let j = choose|j: int| 0 <= j < init.len() && (#[trigger] init[j]).id@ == (#[trigger] r0[i]).id@;
                assert(challenges[j] == init[j]);
            } else {
                assert(challenges[n].id@ == r[i].id@);
            }
        }
        assert forall|i: int, j: int| 0 <= i < r.len() && 0 <= j < r.len() && i != j implies (#[trigger] r[i]).id@ != (#[trigger] r[j]).id@ by {
            if i < r0.len() && j < r0.len() {
                assert(r[i] == r0[i] && r[j] == r0[j]);
                assert(r0[i] == r0[i] && r0[j] == r0[j]);
            } else if i < r0.len() {
                assert(r[i] == r0[i]);
                let k = choose|k: int| 0 <= k < init.len() && (#[trigger] init[k]).id@ == (#[trigger] r0[i]).id@;
                assert(challenges[k] == init[k] && challenges[n] == challenges[n]);
            } else {
                assert(r[j] == r0[j]);
                let k = choose|k: int| 0 <= k < init.len() && (#[trigger] init[k]).id@ == (#[trigger] r0[j]).id@;
                assert(challenges[k] == init[k] && challenges[n] == challenges[n]);
            }
        }
    }
}

fn find_deployer(deployers: &Vec<(String, DeployerConfig)>, name: &String) -> (r: Option<usize>)
    ensures
        match deployer_named(deployers@, name@) {
            Some(d) => r is Some && r->Some_0 < deployers@.len() && deployers@[r->Some_0 as int].1 == d,
            None => r is None,
        },
{
    let mut i: usize = 0;
    assert(deployers@.subrange(0, deployers@.len() as int) =~= deployers@);
    while i < deployers.len()
        invariant
            i <= deployers@.len(),
            deployer_named(deployers@, name@) == deployer_named(deployers@.subrange(i as int, deployers@.len() as int), name@),
        decreases deployers@.len() - i,
    {
        let ghost rest = deployers@.subrange(i as int, deployers@.len() as int);
        proof {
            assert(rest[0] == deployers@[i as int]);
            assert(rest.subrange(1, rest.len() as int) =~= deployers@.subrange(i + 1, deployers@.len() as int));
        }
        if deployers[i].0 == *name {
            return Some(i);
        }
        i += 1;
    }
    None
}

/// The catalog the configuration describes: each challenge whose deployer
/// is configured, with that deployer's path; the others are left out.
pub fn resolve_challenges(config: &InstancerConfig) -> (r: Vec<Challenge>)
    requires
        unique_keys(config.challenges@),
    ensures
        r@ == resolved(config.challenges@, config.deployers@),
        unique_ids(r@),
{
    let mut out: Vec<Challenge> = Vec::new();
    let mut i: usize = 0;
    while i < config.challenges.len()
        invariant
            i <= config.challenges@.len(),
            out@ == resolved(config.challenges@.subrange(0, i as int), config.deployers@),
        decreases config.challenges@.len() - i,
    {
        proof {
            let next = config.challenges@.subrange(0, i + 1);
            assert(next.drop_last() =~= config.challenges@.subrange(0, i as int));
            assert(next.last() == config.challenges@[i as int]);
        }
        let (id, cfg) = &config.challenges[i];
        match find_deployer(&config.deployers, &cfg.deployer) {
            Some(k) => {
                out.push(
                    Challenge {
                        id: id.clone(),
                        name: cfg.name.clone(),
                        description: clone_opt_string(&cfg.description),
                        ttl: cfg.ttl,
                        deployer_path: config.deployers[k].1.path.clone(),
                    },
                );
            },
            None => {},
        }
        i += 1;
    }
    proof {
        assert(config.challenges@.subrange(0, i as int) =~= config.challenges@);
        lemma_resolved_ids(config.challenges@, config.deployers@);
    }
    out
}

/// The challenges of `challenges` whose flag in `present` is set, in order.
pub open spec fn kept(challenges: Seq<Challenge>, present: Seq<bool>) -> Seq<Challenge>
    decreases challenges.len(),
{
    if challenges.len() == 0 || present.len() == 0 {
        Seq::empty()
    } else if present.last() {
        kept(challenges.drop_last(), present.drop_last()).push(challenges.last())
    } else {
        kept(challenges.drop_last(), present.drop_last())
    }
}

/// Drops the challenges whose deployer executable is missing: `present[i]`
/// tells whether the one of `challenges[i]` exists.
pub fn keep_deployable(challenges: &Vec<Challenge>, present: &Vec<bool>) -> (r: Vec<Challenge>)
    requires
        challenges@.len() == present@.len(),
    ensures
        r@ == kept(challenges@, present@),
        unique_ids(challenges@) ==> unique_ids(r@),
{
    let mut out: Vec<Challenge> = Vec::new();
    let mut i: usize = 0;
    while i < challenges.len()
        invariant
            i <= challenges@.len(),
            challenges@.len() == present@.len(),
            out@ == kept(challenges@.subrange(0, i as int), present@.subrange(0, i as int)),
        decreases challenges@.len() - i,
    {
        proof {
            assert(challenges@.subrange(0, i + 1).drop_last() =~= challenges@.subrange(0, i as int));
            assert(present@.subrange(0, i + 1).drop_last() =~= present@.subrange(0, i as int));
        }
        if present[i] {
            out.push(challenges[i].clone());
        }
        i += 1;
    }
    proof {
        assert(challenges@.subrange(0, i as int) =~= challenges@);
        assert(present@.subrange(0, i as int) =~= present@);
        if unique_ids(challenges@) {
            lemma_kept_ids(challenges@, present@);
        }
    }
    out
}

} // verus!
