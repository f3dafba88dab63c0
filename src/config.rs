use vstd::prelude::*;

verus! {

/// The connection parameters of one named database environment.
#[derive(Clone, Debug)]
pub struct Environment {
    pub host: String,
    pub port: u16,
    pub username: String,
    pub password_env: String,
    pub database: String,
}

/// The configured environments, each under its name.
#[derive(Clone, Debug)]
pub struct Config {
    pub environments: Vec<(String, Environment)>,
}

/// Why an environment could not be resolved.
#[derive(Clone, Debug, PartialEq, Eq)]
pub enum ConfigError {
    NotFound { name: String },
}

/// The environment of the first entry named `n`.
pub open spec fn lookup_env(es: Seq<(String, Environment)>, n: Seq<char>) -> Option<Environment>
    decreases es.len(),
{
    if es.len() == 0 {
        None
    } else if es[0].0@ == n {
        Some(es[0].1)
    } else {
        lookup_env(es.drop_first(), n)
    }
}

proof fn lemma_lookup_update(
    es: Seq<(String, Environment)>,
    i: int,
    e: (String, Environment),
    m: Seq<char>,
)
    requires
        0 <= i < es.len(),
        es[i].0@ == e.0@,
        forall|j: int| 0 <= j < i ==> es[j].0@ != e.0@,
    ensures
        lookup_env(es.update(i, e), m) == (if m == e.0@ {
            Some(e.1)
        } else {
            lookup_env(es, m)
        }),
    decreases i,
{
    if i > 0 {
        assert(es.update(i, e).drop_first() =~= es.drop_first().update(i - 1, e));
        lemma_lookup_update(es.drop_first(), i - 1, e, m);
    } else {
        assert(es.update(i, e).drop_first() =~= es.drop_first());
    }
}

proof fn lemma_lookup_push(es: Seq<(String, Environment)>, e: (String, Environment), m: Seq<char>)
    ensures
        lookup_env(es.push(e), m) == (if lookup_env(es, m) is Some {
            lookup_env(es, m)
        } else if m == e.0@ {
            Some(e.1)
        } else {
            None
        }),
    decreases es.len(),
{
    if es.len() > 0 {
        assert(es.push(e).drop_first() =~= es.drop_first().push(e));
        lemma_lookup_push(es.drop_first(), e, m);
    } else {
        assert(es.push(e).drop_first() =~= es);
    }
}

impl Config {
    /// The environment named `n`, if any.
    pub open spec fn env(&self, n: Seq<char>) -> Option<Environment> {
        lookup_env(self.environments@, n)
    }

    /// A configuration without environments.
    pub fn new() -> (r: Config)
        ensures
            forall|n: Seq<char>| r.env(n) is None,
    {
        Config { environments: Vec::new() }
    }

    /// Adds the environment `env` under `name`, replacing the one of that name.
    pub fn set_env(&mut self, name: String, env: Environment)
        ensures
            forall|n: Seq<char>|
                #[trigger] final(self).env(n) == (if n == name@ {
                    Some(env)
                } else {
                    old(self).env(n)
                }),
    {
        let ghost es = self.environments@;
        let mut i: usize = 0;
        while i < self.environments.len()
            invariant
                es == self.environments@,
                es == old(self).environments@,
                i <= es.len(),
                forall|j: int| 0 <= j < i ==> es[j].0@ != name@,
            decreases es.len() - i,
        {
            if self.environments[i].0 == name {
                let ghost e = (name, env);
                self.environments.set(i, (name, env));
                assert(self.environments@ == es.update(i as int, e));
                assert forall|n: Seq<char>| #[trigger]
                    self.env(n) == (if n == name@ {
                        Some(env)
                    } else {
                        lookup_env(es, n)
                    }) by {
                    lemma_lookup_update(es, i as int, e, n);
                }
                return ;
            }
            i = i + 1;
        }
        let ghost e = (name, env);
        self.environments.push((name, env));
        assert(self.environments@ == es.push(e));
        assert forall|n: Seq<char>| #[trigger]
            self.env(n) == (if n == name@ {
                Some(env)
            } else {
                lookup_env(es, n)
            }) by {
            lemma_lookup_push(es, e, n);
            if n == name@ {
                lemma_lookup_absent(es, n);
            }
        }
    }

    /// Retrieves the environment named `name`.
    pub fn get_env(&self, name: &str) -> (r: Result<&Environment, ConfigError>)
        ensures
            match r {
                Ok(e) => self.env(name@) == Some(*e),
                Err(ConfigError::NotFound { name: n }) => self.env(name@) is None && n@ == name@,
            },
    {
        let ghost es = self.environments@;
        let wanted = name.to_owned();
        let mut i: usize = 0;
        assert(es.skip(0) =~= es);
        while i < self.environments.len()
            invariant
                es == self.environments@,
                wanted@ == name@,
                i <= es.len(),
                lookup_env(es, name@) == lookup_env(es.skip(i as int), name@),
            decreases es.len() - i,
        {
            if self.environments[i].0 == wanted {
                return Ok(&self.environments[i].1);
            }
            assert(es.skip(i as int).drop_first() =~= es.skip(i + 1));
            i = i + 1;
        }
        Err(ConfigError::NotFound { name: wanted })
    }
}

proof fn lemma_lookup_absent(es: Seq<(String, Environment)>, n: Seq<char>)
    requires
        forall|j: int| 0 <= j < es.len() ==> es[j].0@ != n,
    ensures
        lookup_env(es, n) is None,
    decreases es.len(),
{
    if es.len() > 0 {
        lemma_lookup_absent(es.drop_first(), n);
    }
}

} // verus!
