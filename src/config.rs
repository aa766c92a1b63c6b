use vstd::prelude::*;

use crate::domain::{invalid_name_reason, slug_of, slugify_name, valid_slug};
use crate::text::push_str;

verus! {

/// A port of the container to publish on the host under a logical name.
#[derive(Clone, Debug, PartialEq, Eq)]
pub struct ForwardedPort {
    pub name: String,
    pub target: u16,
}

#[derive(Clone, Debug, PartialEq, Eq)]
pub struct ProjectConfig {
    pub slug: Option<String>,
}

#[derive(Clone, Debug, PartialEq, Eq)]
pub struct DockerConfig {
    pub image: Option<String>,
    pub setup_command: Option<String>,
}

#[derive(Clone, Debug, PartialEq, Eq)]
pub struct PortsConfig {
    pub ports: Vec<ForwardedPort>,
}

/// The project's settings, as read from its configuration files.
#[derive(Clone, Debug, PartialEq, Eq)]
pub struct Config {
    pub project: ProjectConfig,
    pub docker: DockerConfig,
    pub ports: PortsConfig,
}

#[derive(Clone, Debug, PartialEq, Eq)]
pub enum ConfigError {
    FileNotFound(String),
    ParseError(String),
    MissingRequiredKey(String),
}

impl ConfigError {
    pub open spec fn text(&self) -> Seq<char> {
        match self {
            ConfigError::FileNotFound(path) => "File not found: "@ + path@,
            ConfigError::ParseError(m) => "Parse error: "@ + m@,
            ConfigError::MissingRequiredKey(k) => "Missing required key: "@ + k@,
        }
    }

    /// The error as text.
    pub fn message(&self) -> (r: String)
        ensures
            r@ == self.text(),
    {
        let (head, detail) = match self {
            ConfigError::FileNotFound(path) => ("File not found: ", path),
            ConfigError::ParseError(m) => ("Parse error: ", m),
            ConfigError::MissingRequiredKey(k) => ("Missing required key: ", k),
        };
        let mut r = head.to_owned();
        push_str(&mut r, detail.as_str());
        r
    }
}

impl Default for PortsConfig {
    /// No forwarded ports.
    fn default() -> (r: PortsConfig)
        ensures
            r.ports@.len() == 0,
    {
        PortsConfig { ports: Vec::new() }
    }
}

pub open spec fn or_else<T>(a: Option<T>, b: Option<T>) -> Option<T> {
    if a is Some { a } else { b }
}

fn or_else_exec(a: Option<String>, b: Option<String>) -> (r: Option<String>)
    ensures
        r == or_else(a, b),
{
    match a {
        Some(x) => Some(x),
        None => b,
    }
}

/// What `merge(base, local)` is: each set value of `local` wins, and `local`'s ports replace
/// `base`'s unless there are none.
pub open spec fn merged(base: Config, local: Config) -> Config {
    Config {
        project: ProjectConfig { slug: or_else(local.project.slug, base.project.slug) },
        docker: DockerConfig {
            image: or_else(local.docker.image, base.docker.image),
            setup_command: or_else(local.docker.setup_command, base.docker.setup_command),
        },
        ports: if local.ports.ports@.len() == 0 { base.ports } else { local.ports },
    }
}

/// Layers `local` over `base`.
pub fn merge(base: Config, local: Config) -> (r: Config)
    ensures
        r == merged(base, local),
{
    Config {
        project: ProjectConfig { slug: or_else_exec(local.project.slug, base.project.slug) },
        docker: DockerConfig {
            image: or_else_exec(local.docker.image, base.docker.image),
            setup_command: or_else_exec(local.docker.setup_command, base.docker.setup_command),
        },
        ports: if local.ports.ports.len() == 0 { base.ports } else { local.ports },
    }
}

/// Why `p` is refused, given the ports before it; `None` if it is accepted.
pub open spec fn port_fault(p: ForwardedPort, earlier: Seq<ForwardedPort>) -> Option<Seq<char>> {
    if p.target == 0 {
        Some("Invalid forwarded port target: 0"@)
    } else if !valid_slug(slug_of(p.name@)) {
        Some("Invalid sandbox name: '"@ + p.name@ + "'. "@ + invalid_name_reason())
    } else if exists|k: int| 0 <= k < earlier.len() && slug_of(#[trigger] earlier[k].name@) == slug_of(p.name@) {
        Some("Duplicate forwarded port name after slugify: '"@ + slug_of(p.name@) + "'"@)
    } else {
        None
    }
}

/// The fault of the first refused port, if any.
pub open spec fn first_port_fault(ps: Seq<ForwardedPort>) -> Option<Seq<char>>
    decreases ps.len(),
{
    if ps.len() == 0 {
        None
    } else {
        match first_port_fault(ps.drop_last()) {
            Some(m) => Some(m),
            None => port_fault(ps.last(), ps.drop_last()),
        }
    }
}

proof fn lemma_fault_step(ps: Seq<ForwardedPort>, i: int)
    requires
        0 <= i < ps.len(),
        first_port_fault(ps.take(i)) is None,
    ensures
        first_port_fault(ps.take(i + 1)) == port_fault(ps[i], ps.take(i)),
{
    let t = ps.take(i + 1);
    assert(t.drop_last() =~= ps.take(i));
    assert(t.last() == ps[i]);
}

proof fn lemma_fault_extends(ps: Seq<ForwardedPort>, i: int)
    requires
        0 <= i <= ps.len(),
        first_port_fault(ps.take(i)) is Some,
    ensures
        first_port_fault(ps) == first_port_fault(ps.take(i)),
    decreases ps.len(),
{
    if i == ps.len() {
        assert(ps.take(i) =~= ps);
    } else {
        assert(ps.drop_last().take(i) =~= ps.take(i));
        lemma_fault_extends(ps.drop_last(), i);
    }
}

/// Without a fault, every port has a positive target and a valid slug, and no two ports
/// share a slug.
pub proof fn lemma_no_fault_unique(ps: Seq<ForwardedPort>)
    requires
        first_port_fault(ps) is None,
    ensures
        forall|i: int| 0 <= i < ps.len() ==> (#[trigger] ps[i]).target > 0 && valid_slug(slug_of(ps[i].name@)),
        forall|i: int, j: int| 0 <= i < j < ps.len() ==> slug_of(ps[i].name@) != slug_of(ps[j].name@),
    decreases ps.len(),
{
    if ps.len() > 0 {
        let q = ps.drop_last();
        lemma_no_fault_unique(q);
        assert forall|i: int, j: int| 0 <= i < j < ps.len() implies slug_of(ps[i].name@) != slug_of(ps[j].name@) by {
            if j == ps.len() - 1 {
                assert(q[i] == ps[i]);
                if slug_of(ps[i].name@) == slug_of(ps[j].name@) {
                    assert(slug_of(q[i].name@) == slug_of(ps.last().name@));
                }
            } else {
                assert(q[i] == ps[i] && q[j] == ps[j]);
            }
        }
        assert forall|i: int| 0 <= i < ps.len() implies (#[trigger] ps[i]).target > 0 && valid_slug(slug_of(ps[i].name@)) by {
            if i < ps.len() - 1 {
                assert(q[i] == ps[i]);
            }
        }
    }
}

/// Checks every forwarded port: a positive target, a name with a valid slug, and a slug that
/// no earlier port has. The first port that fails decides the error.
pub fn validate_ports(config: &Config) -> (r: Result<(), ConfigError>)
    ensures
        r is Ok <==> first_port_fault(config.ports.ports@) is None,
        r matches Err(e) ==> e == ConfigError::ParseError(e->ParseError_0)
            && first_port_fault(config.ports.ports@) == Some(e->ParseError_0@),
{
    let ports = &config.ports.ports;
    let mut seen: Vec<String> = Vec::new();
    let mut i: usize = 0;
    while i < ports.len()
        invariant
            ports@ == config.ports.ports@,
            i <= ports@.len(),
            seen@.len() == i,
            forall|k: int| 0 <= k < i ==> (#[trigger] seen@[k])@ == slug_of(ports@[k].name@),
            first_port_fault(ports@.take(i as int)) is None,
        decreases ports@.len() - i,
    {
        let p = &ports[i];
        proof {
            lemma_fault_step(ports@, i as int);
        }
        if p.target == 0 {
            proof {
                lemma_fault_extends(ports@, i + 1);
            }
            return Err(ConfigError::ParseError("Invalid forwarded port target: 0".to_owned()));
        }
        let slug = match slugify_name(p.name.as_str()) {
            Ok(s) => s,
            Err(e) => {
                proof {
                    lemma_fault_extends(ports@, i + 1);
                }
                return Err(ConfigError::ParseError(e.message()));
            },
        };
        let mut k: usize = 0;
        while k < seen.len()
            invariant
                ports@ == config.ports.ports@,
                ports@[i as int].target != 0,
                valid_slug(slug_of(ports@[i as int].name@)),
                first_port_fault(ports@.take(i + 1)) == port_fault(ports@[i as int], ports@.take(i as int)),
                k <= seen@.len() == i,
                i < ports@.len(),
                slug@ == slug_of(ports@[i as int].name@),
                forall|m: int| 0 <= m < i ==> (#[trigger] seen@[m])@ == slug_of(ports@[m].name@),
                forall|m: int| 0 <= m < k ==> slug_of(ports@[m].name@) != slug@,
            decreases seen@.len() - k,
        {
            if crate::text::str_eq(seen[k].as_str(), slug.as_str()) {
                let mut msg = "Duplicate forwarded port name after slugify: '".to_owned();
                push_str(&mut msg, slug.as_str());
                push_str(&mut msg, "'");
                proof {
                    let earlier = ports@.take(i as int);
                    assert(earlier[k as int] == ports@[k as int]);
                    assert(slug_of(earlier[k as int].name@) == slug_of(ports@[i as int].name@));
                    assert(port_fault(ports@[i as int], earlier) is Some);
                    lemma_fault_extends(ports@, i + 1);
                }
                return Err(ConfigError::ParseError(msg));
            }
            k = k + 1;
        }
        proof {
            let earlier = ports@.take(i as int);
            assert forall|m: int| 0 <= m < earlier.len() implies slug_of(#[trigger] earlier[m].name@) != slug_of(ports@[i as int].name@) by {
                assert(earlier[m] == ports@[m]);
            }
        }
        seen.push(slug);
        i = i + 1;
    }
    assert(ports@.take(ports@.len() as int) =~= ports@);
    Ok(())
}

/// The project settings when no file gives them: the slug of the working directory's name,
/// when it has a name whose slug is not empty.
pub fn default_config(dir_name: Option<&str>) -> (r: Config)
    ensures
        r.project.slug == (match dir_name {
            Some(n) => if slug_of(n@).len() > 0 { Some(r.project.slug->Some_0) } else { None::<String> },
            None => None::<String>,
        }),
        r.project.slug matches Some(s) ==> s@ == slug_of(dir_name->Some_0@),
        r.docker.image is None,
        r.docker.setup_command is None,
        r.ports.ports@.len() == 0,
{
    let slug = match dir_name {
        Some(n) => {
            let s = crate::domain::slugify(n);
            if !s.as_str().is_empty() {
                Some(s)
            } else {
                None
            }
        },
        None => None,
    };
    Config {
        project: ProjectConfig { slug },
        docker: DockerConfig { image: None, setup_command: None },
        ports: PortsConfig { ports: Vec::new() },
    }
}

pub open spec fn blank(v: Option<String>) -> bool {
    match v {
        Some(s) => s@.len() == 0,
        None => true,
    }
}

/// The settings in force: `base` layered over `defaults`, then `local` over both; refused
/// when the image or the setup command is missing or empty, or a forwarded port is refused.
pub fn load_final(defaults: Config, base: Config, local: Option<Config>) -> (r: Result<Config, ConfigError>)
    ensures
        ({
            let m = match local {
                Some(l) => merged(merged(defaults, base), l),
                None => merged(defaults, base),
            };
            &&& blank(m.docker.image) ==> r == Err::<Config, ConfigError>(ConfigError::MissingRequiredKey(r->Err_0->MissingRequiredKey_0))
                && r->Err_0->MissingRequiredKey_0@ == "docker.image"@
            &&& !blank(m.docker.image) && blank(m.docker.setup_command) ==> r == Err::<Config, ConfigError>(ConfigError::MissingRequiredKey(r->Err_0->MissingRequiredKey_0))
                && r->Err_0->MissingRequiredKey_0@ == "docker.setup-command"@
            &&& !blank(m.docker.image) && !blank(m.docker.setup_command) ==> (match first_port_fault(m.ports.ports@) {
                None => r == Ok::<Config, ConfigError>(m),
                Some(f) => r is Err && r->Err_0 == ConfigError::ParseError(r->Err_0->ParseError_0) && r->Err_0->ParseError_0@ == f,
            })
        }),
{
    let first = merge(defaults, base);
    let m = match local {
        Some(l) => merge(first, l),
        None => first,
    };
    let image_blank = match &m.docker.image {
        Some(s) => s.as_str().is_empty(),
        None => true,
    };
    if image_blank {
        return Err(ConfigError::MissingRequiredKey("docker.image".to_owned()));
    }
    let setup_blank = match &m.docker.setup_command {
        Some(s) => s.as_str().is_empty(),
        None => true,
    };
    if setup_blank {
        return Err(ConfigError::MissingRequiredKey("docker.setup-command".to_owned()));
    }
    match validate_ports(&m) {
        Ok(()) => Ok(m),
        Err(e) => Err(e),
    }
}

} // verus!
