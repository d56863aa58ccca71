//! Deployment environments, project languages, and the pure assembly of
//! the requests the surrounding commands send: pipeline status updates,
//! package registration, service publication, CI dispatch, and the shell
//! commands used to refresh internal dependencies.

use crate::text::push_char;
use vstd::prelude::*;
use vstd::string::StringExecFns;

verus! {

/// Deployment environment a command addresses.
#[derive(Debug, Clone, Copy, PartialEq, Eq, Structural)]
pub enum Environment {
    Dev,
    Stage,
    Prod,
    ProdK8,
    StageK8,
}

/// Language of the project being connected.
#[derive(Debug, Clone, Copy, PartialEq, Eq, Structural)]
pub enum Lang {
    Rust,
    TS,
    Python,
    Shell,
}

/// The name an environment prints as, also the key of its base URL in
/// the service configuration.
pub open spec fn env_label(e: Environment) -> Seq<char> {
    match e {
        Environment::Dev => seq!['d', 'e', 'v'],
        Environment::Stage => seq!['s', 't', 'a', 'g', 'e'],
        Environment::Prod => seq!['p', 'r', 'o', 'd'],
        Environment::ProdK8 => seq!['p', 'r', 'o', 'd', '_', 'k', '8'],
        Environment::StageK8 => seq!['s', 't', 'a', 'g', 'e', '_', 'k', '8'],
    }
}

/// The URL key used when fetching the published spec: the Kubernetes
/// flavours read the spec from the plain environment of the same stage.
pub open spec fn swagger_env_key(e: Environment) -> Seq<char> {
    match e {
        Environment::Dev => env_label(Environment::Dev),
        Environment::Stage => env_label(Environment::Stage),
        Environment::Prod => env_label(Environment::Prod),
        Environment::ProdK8 => env_label(Environment::Prod),
        Environment::StageK8 => env_label(Environment::Stage),
    }
}

/// The name a language prints as.
pub open spec fn lang_label(l: Lang) -> Seq<char> {
    match l {
        Lang::Rust => seq!['R', 'u', 's', 't'],
        Lang::TS => seq!['T', 'S'],
        Lang::Python => seq!['P', 'y', 't', 'h', 'o', 'n'],
        Lang::Shell => seq!['S', 'h', 'e', 'l', 'l'],
    }
}

/// The generator name handed to the client generator for a language.
pub open spec fn spec_generator_language(l: Lang) -> Seq<char> {
    match l {
        Lang::TS => seq!['t', 'y', 'p', 'e', 's', 'c', 'r', 'i', 'p', 't', '-', 'f', 'e', 't', 'c', 'h'],
        Lang::Rust => seq!['r', 'u', 's', 't'],
        Lang::Python => seq!['p', 'y', 't', 'h', 'o', 'n'],
        Lang::Shell => lang_label(Lang::Shell),
    }
}

impl Environment {
    /// The name the environment prints as, and the key of its base URL.
    pub fn label(&self) -> (r: String)
        ensures
            r@ == env_label(*self),
    {
        match self {
            Environment::Dev => {
                let r = String::from_str("dev");
                proof {
                    reveal_strlit("dev");
                    assert(r@ =~= env_label(Environment::Dev));
                }
                r
            },
            Environment::Stage => {
                let r = String::from_str("stage");
                proof {
                    reveal_strlit("stage");
                    assert(r@ =~= env_label(Environment::Stage));
                }
                r
            },
            Environment::Prod => {
                let r = String::from_str("prod");
                proof {
                    reveal_strlit("prod");
                    assert(r@ =~= env_label(Environment::Prod));
                }
                r
            },
            Environment::ProdK8 => {
                let r = String::from_str("prod_k8");
                proof {
                    reveal_strlit("prod_k8");
                    assert(r@ =~= env_label(Environment::ProdK8));
                }
                r
            },
            Environment::StageK8 => {
                let r = String::from_str("stage_k8");
                proof {
                    reveal_strlit("stage_k8");
                    assert(r@ =~= env_label(Environment::StageK8));
                }
                r
            },
        }
    }

    /// The key of the URL the published spec is fetched from.
    pub fn swagger_key(&self) -> (r: String)
        ensures
            r@ == swagger_env_key(*self),
    {
        match self {
            Environment::Dev => Environment::Dev.label(),
            Environment::Stage => Environment::Stage.label(),
            Environment::Prod => Environment::Prod.label(),
            Environment::ProdK8 => Environment::Prod.label(),
            Environment::StageK8 => Environment::Stage.label(),
        }
    }
}

impl Lang {
    /// The name the language prints as.
    pub fn label(&self) -> (r: String)
        ensures
            r@ == lang_label(*self),
    {
        match self {
            Lang::Rust => {
                let r = String::from_str("Rust");
                proof {
                    reveal_strlit("Rust");
                    assert(r@ =~= lang_label(Lang::Rust));
                }
                r
            },
            Lang::TS => {
                let r = String::from_str("TS");
                proof {
                    reveal_strlit("TS");
                    assert(r@ =~= lang_label(Lang::TS));
                }
                r
            },
            Lang::Python => {
                let r = String::from_str("Python");
                proof {
                    reveal_strlit("Python");
                    assert(r@ =~= lang_label(Lang::Python));
                }
                r
            },
            Lang::Shell => {
                let r = String::from_str("Shell");
                proof {
                    reveal_strlit("Shell");
                    assert(r@ =~= lang_label(Lang::Shell));
                }
                r
            },
        }
    }

    /// The generator name handed to the client generator.
    pub fn generator_language(&self) -> (r: String)
        ensures
            r@ == spec_generator_language(*self),
    {
        match self {
            Lang::TS => {
                let r = String::from_str("typescript-fetch");
                proof {
                    reveal_strlit("typescript-fetch");
                    assert(r@ =~= spec_generator_language(Lang::TS));
                }
                r
            },
            Lang::Rust => {
                let r = String::from_str("rust");
                proof {
                    reveal_strlit("rust");
                    assert(r@ =~= spec_generator_language(Lang::Rust));
                }
                r
            },
            Lang::Python => {
                let r = String::from_str("python");
                proof {
                    reveal_strlit("python");
                    assert(r@ =~= spec_generator_language(Lang::Python));
                }
                r
            },
            Lang::Shell => Lang::Shell.label(),
        }
    }
}

/// Update category a pipeline status report carries: `service` when the
/// project declares a service type, `package` otherwise.
pub open spec fn spec_update_type(service_type_present: bool) -> Seq<char> {
    if service_type_present {
        seq!['s', 'e', 'r', 'v', 'i', 'c', 'e']
    } else {
        seq!['p', 'a', 'c', 'k', 'a', 'g', 'e']
    }
}

/// Update category for a pipeline status report.
pub fn update_type_for(service_type_present: bool) -> (r: String)
    ensures
        r@ == spec_update_type(service_type_present),
{
    if service_type_present {
        let r = String::from_str("service");
        proof {
            reveal_strlit("service");
            assert(r@ =~= spec_update_type(true));
        }
        r
    } else {
        let r = String::from_str("package");
        proof {
            reveal_strlit("package");
            assert(r@ =~= spec_update_type(false));
        }
        r
    }
}

/// A pipeline status report, ready for the registry client to send.
#[derive(Debug, Clone, PartialEq)]
pub struct PipelineStatusUpdate {
    pub env: String,
    pub status: String,
    pub update_type: String,
    pub org_id: String,
    pub identifier: String,
}

/// Assembles a pipeline status report: the environment prints as its
/// label and the update category follows the declared service type.
pub fn build_pipeline_status_update(
    env: Environment,
    status: String,
    service_type_present: bool,
    org_id: String,
    identifier: String,
) -> (r: PipelineStatusUpdate)
    ensures
        r.env@ == env_label(env),
        r.status == status,
        r.update_type@ == spec_update_type(service_type_present),
        r.org_id == org_id,
        r.identifier == identifier,
{
    PipelineStatusUpdate {
        env: env.label(),
        status,
        update_type: update_type_for(service_type_present),
        org_id,
        identifier,
    }
}

/// A package registration request, ready for the registry client.
#[derive(Debug, Clone, PartialEq)]
pub struct PackageRegistration {
    pub identifier: String,
    pub package_type: String,
    pub lang: String,
    pub version: String,
    pub organization_id: String,
    pub description: String,
    pub dependencies: Vec<String>,
    pub env: String,
    pub repo_origin: Option<String>,
    pub quick_links: String,
}

/// Assembles a package registration: the dependency list is the declared
/// service keys followed by the internal dependencies, in order.
pub fn build_package_registration(
    name: String,
    package_type: String,
    lang: Lang,
    version: String,
    organization: String,
    description: String,
    service_keys: &Vec<String>,
    internal_dependencies: &Vec<String>,
    env: Environment,
    repo_origin: Option<String>,
    links: String,
) -> (r: PackageRegistration)
    ensures
        r.identifier == name,
        r.package_type == package_type,
        r.lang@ == lang_label(lang),
        r.version == version,
        r.organization_id == organization,
        r.description == description,
        r.dependencies.deep_view() == service_keys.deep_view()
            + internal_dependencies.deep_view(),
        r.env@ == env_label(env),
        r.repo_origin == repo_origin,
        r.quick_links == links,
{
    let mut dependencies = crate::resolver::clone_string_vec(service_keys);
    let mut extra = crate::resolver::clone_string_vec(internal_dependencies);
    dependencies.append(&mut extra);
    proof {
        assert(dependencies.deep_view() =~= service_keys.deep_view()
            + internal_dependencies.deep_view());
    }
    PackageRegistration {
        identifier: name,
        package_type,
        lang: lang.label(),
        version,
        organization_id: organization,
        description,
        dependencies,
        env: env.label(),
        repo_origin,
        quick_links: links,
    }
}

/// The workflow-dispatch endpoint for a repository's CI workflow.
pub open spec fn spec_workflow_dispatch_url(owner: Seq<char>, repo: Seq<char>) -> Seq<char> {
    "https://api.github.com/repos/"@ + owner + seq!['/'] + repo
        + "/actions/workflows/CI.yml/dispatches"@
}

/// Builds the workflow-dispatch endpoint URL for a repository.
pub fn workflow_dispatch_url(owner: &String, repo: &String) -> (r: String)
    ensures
        r@ == spec_workflow_dispatch_url(owner@, repo@),
{
    proof {
        reveal_strlit("https://api.github.com/repos/");
        reveal_strlit("/actions/workflows/CI.yml/dispatches");
    }
    let mut out = String::new();
    out.append("https://api.github.com/repos/");
    out.append(owner.as_str());
    push_char(&mut out, '/');
    out.append(repo.as_str());
    out.append("/actions/workflows/CI.yml/dispatches");
    proof {
        assert(out@ =~= spec_workflow_dispatch_url(owner@, repo@));
    }
    out
}

/// The shell command that refreshes one internal dependency: `pnpm add
/// dep@version` for TypeScript, `cargo add pkg@version` for Rust; Python
/// is handled by rewriting the requirements file instead, and the shell
/// language has no refresh command.
pub open spec fn spec_refresh_command(
    l: Lang,
    dependency: Seq<char>,
    package: Seq<char>,
    version: Seq<char>,
) -> Option<Seq<char>> {
    match l {
        Lang::TS => Some("pnpm add "@ + dependency + seq!['@'] + version),
        Lang::Rust => Some("cargo add "@ + package + seq!['@'] + version),
        Lang::Python => None,
        Lang::Shell => None,
    }
}

/// Builds the shell command that refreshes one internal dependency, when
/// the language uses one.
pub fn refresh_shell_command(
    lang: Lang,
    dependency: &String,
    package: &String,
    version: &String,
) -> (r: Option<String>)
    ensures
        (match r {
            Some(cmd) => spec_refresh_command(lang, dependency@, package@, version@) == Some(
                cmd@,
            ),
            None => spec_refresh_command(lang, dependency@, package@, version@).is_none(),
        }),
{
    proof {
        reveal_strlit("pnpm add ");
        reveal_strlit("cargo add ");
    }
    match lang {
        Lang::TS => {
            let mut out = String::new();
            out.append("pnpm add ");
            out.append(dependency.as_str());
            push_char(&mut out, '@');
            out.append(version.as_str());
            proof {
                assert(out@ =~= "pnpm add "@ + dependency@ + seq!['@'] + version@);
            }
            Some(out)
        },
        Lang::Rust => {
            let mut out = String::new();
            out.append("cargo add ");
            out.append(package.as_str());
            push_char(&mut out, '@');
            out.append(version.as_str());
            proof {
                assert(out@ =~= "cargo add "@ + package@ + seq!['@'] + version@);
            }
            Some(out)
        },
        Lang::Python => None,
        Lang::Shell => None,
    }
}

/// A service publication request, ready for the registry client.
#[derive(Debug, Clone, PartialEq)]
pub struct ServicePublish {
    pub identifier: String,
    pub env: String,
    pub base_url: String,
    pub base_url_ws: Option<String>,
    pub spec_body: String,
    pub dependencies: Vec<String>,
    pub tables: Vec<String>,
    pub db_schema_id: Option<String>,
    pub cache_schema_id: Option<String>,
    pub message_queue_schema_id: Option<String>,
    pub service_type: Option<String>,
    pub version: String,
    pub lang: String,
    pub description: String,
    pub organization_id: String,
    pub repo_origin: Option<String>,
    pub quick_links: String,
}

/// Assembles a service publication: the environment prints as its label,
/// the dependency list is the configured service keys followed by the
/// package's internal dependencies, and the language field carries the
/// language name up to a dash — which none of the names contains, so it
/// is the whole name.
pub fn build_service_publish(
    name: String,
    env: Environment,
    base_url: String,
    base_url_ws: Option<String>,
    spec_body: String,
    service_keys: &Vec<String>,
    internal_dependencies: &Vec<String>,
    tables: Vec<String>,
    db_schema_id: Option<String>,
    cache_schema_id: Option<String>,
    message_queue_schema_id: Option<String>,
    service_type: Option<String>,
    version: String,
    lang: Lang,
    description: String,
    organization: String,
    repo_origin: Option<String>,
    links: String,
) -> (r: ServicePublish)
    ensures
        r.identifier == name,
        r.env@ == env_label(env),
        r.base_url == base_url,
        r.base_url_ws == base_url_ws,
        r.spec_body == spec_body,
        r.dependencies.deep_view() == service_keys.deep_view()
            + internal_dependencies.deep_view(),
        r.tables == tables,
        r.db_schema_id == db_schema_id,
        r.cache_schema_id == cache_schema_id,
        r.message_queue_schema_id == message_queue_schema_id,
        r.service_type == service_type,
        r.version == version,
        r.lang@ == lang_label(lang),
        r.description == description,
        r.organization_id == organization,
        r.repo_origin == repo_origin,
        r.quick_links == links,
{
    let mut dependencies = crate::resolver::clone_string_vec(service_keys);
    let mut extra = crate::resolver::clone_string_vec(internal_dependencies);
    dependencies.append(&mut extra);
    proof {
        assert(dependencies.deep_view() =~= service_keys.deep_view()
            + internal_dependencies.deep_view());
    }
    ServicePublish {
        identifier: name,
        env: env.label(),
        base_url,
        base_url_ws,
        spec_body,
        dependencies,
        tables,
        db_schema_id,
        cache_schema_id,
        message_queue_schema_id,
        service_type,
        version,
        lang: lang.label(),
        description,
        organization_id: organization,
        repo_origin,
        quick_links: links,
    }
}

} // verus!
