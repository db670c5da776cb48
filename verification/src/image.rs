//! Planning a container image build: validating the requested architectures
//! and assembling, character for character, the builder management and build
//! command lines that the caller then executes.
use crate::strutil::{join_comma, joined_commas, views_of};
use vstd::prelude::*;
use vstd::string::*;

verus! {

/// The image subcommand.
pub enum ImageCommand {
    Build {
        repo: String,
        branch: String,
        registry: String,
        tag: String,
        build_args: Option<String>,
        arches: Option<String>,
        action: Option<String>,
    },
}

/// The command lines an image build runs: create (or reuse) the builder,
/// build, and remove the builder again.
pub struct BuildPlan {
    pub create_builder_cmd: String,
    pub use_builder_cmd: String,
    pub build_cmd: String,
    pub cleanup_builder_cmd: String,
}

/// What splitting a text at commas yields: `split(',')` keeps empty tokens,
/// and an empty text gives one empty token.
pub open spec fn split_commas_spec(s: Seq<char>) -> Seq<Seq<char>>
    decreases s.len(),
{
    if s.len() == 0 {
        seq![Seq::<char>::empty()]
    } else if s.last() == ',' {
        split_commas_spec(s.drop_last()).push(Seq::empty())
    } else {
        let p = split_commas_spec(s.drop_last());
        p.update(p.len() - 1, p.last().push(s.last()))
    }
}

proof fn lemma_split_commas_nonempty(s: Seq<char>)
    ensures
        split_commas_spec(s).len() >= 1,
    decreases s.len(),
{
    if s.len() > 0 {
        lemma_split_commas_nonempty(s.drop_last());
    }
}

/// Splits a text at commas, keeping empty tokens.
pub fn split_commas(s: &str) -> (r: Vec<String>)
    ensures
        views_of(r@) == split_commas_spec(s@),
{
    let len = s.unicode_len();
    let mut r: Vec<String> = Vec::new();
    let mut cur = String::new();
    let mut i: usize = 0;
    while i < len
        invariant
            i <= len,
            len == s@.len(),
            views_of(r@).push(cur@) == split_commas_spec(s@.subrange(0, i as int)),
        decreases len - i,
    {
        let ghost oldr = r@;
        let ghost oldcur = cur@;
        let c = s.get_char(i);
        if c == ',' {
            r.push(cur);
            cur = String::new();
        } else {
            cur.append(s.substring_char(i, i + 1));
            proof {
                assert(s@.subrange(i as int, i + 1) =~= seq![s@[i as int]]);
            }
        }
        proof {
            let pre = s@.subrange(0, i as int);
            let pre1 = s@.subrange(0, i + 1);
            assert(pre1.drop_last() =~= pre);
            assert(pre1.last() == s@[i as int]);
            let p = split_commas_spec(pre);
            lemma_split_commas_nonempty(pre);
            assert(p.last() == oldcur);
            if c == ',' {
                assert(views_of(r@) =~~= views_of(oldr).push(oldcur));
                assert(views_of(r@).push(cur@) =~~= split_commas_spec(pre1));
            } else {
                assert(cur@ == oldcur.push(s@[i as int]));
                assert(views_of(r@).push(cur@) =~~= p.update(p.len() - 1, p.last().push(s@[i as int])));
            }
        }
        i += 1;
    }
    r.push(cur);
    proof {
        assert(s@.subrange(0, s@.len() as int) =~= s@);
        assert(views_of(r@) =~~= views_of(r@.drop_last()).push(r@.last()@));
    }
    r
}

/// Whether an architecture is one the build supports.
pub open spec fn arch_ok(a: Seq<char>) -> bool {
    a == "amd64"@ || a == "arm64"@ || a == "armv7"@
}

/// The architectures a build request names: the comma-separated list, or
/// the default alone.
pub open spec fn arches_spec(arches: Option<&String>) -> Seq<Seq<char>> {
    match arches {
        Some(a) => split_commas_spec(a@),
        None => seq!["amd64"@],
    }
}

/// The build arguments handed to the build: the supplied ones in quotes, or
/// the default set.
pub open spec fn build_args_spec(build_args: Option<&String>) -> Seq<char> {
    match build_args {
        Some(a) => seq!['"'] + a@ + seq!['"'],
        None => "\"--disable-tests --without-gui --disable-bench --disable-fuzz-binary --enable-suppress-external-warnings \""@,
    }
}

/// The registry action: the supplied one, or loading into the local
/// registry.
pub open spec fn action_spec(action: Option<&String>) -> Seq<char> {
    match action {
        Some(a) => a@,
        None => "load"@,
    }
}

/// One platform name.
pub open spec fn platform_of(a: Seq<char>) -> Seq<char> {
    "linux/"@ + a
}

/// Every architecture prefixed into a platform name.
pub open spec fn platform_parts(arches: Seq<Seq<char>>) -> Seq<Seq<char>> {
    arches.map_values(|a: Seq<char>| platform_of(a))
}

/// The platform list: each architecture prefixed, comma-joined.
pub open spec fn platforms_spec(arches: Seq<Seq<char>>) -> Seq<char> {
    joined_commas(platform_parts(arches))
}

/// The full build command line.
pub open spec fn build_cmd_spec(
    repo: Seq<char>,
    branch: Seq<char>,
    registry: Seq<char>,
    tag: Seq<char>,
    build_args: Option<&String>,
    arches: Option<&String>,
    action: Option<&String>,
) -> Seq<char> {
    "docker buildx build --platform "@ + platforms_spec(arches_spec(arches))
        + " --build-arg REPO="@ + repo + " --build-arg BRANCH="@ + branch
        + " --build-arg BUILD_ARGS="@ + build_args_spec(build_args) + " --tag "@ + registry
        + seq![':'] + tag + " --file src/templates/Dockerfile . --"@ + action_spec(action)
}

/// Plans an image build: every architecture must be supported, and the
/// command lines come out exactly as specified. Fails exactly when some
/// requested architecture is unsupported.
pub fn build_image_plan(
    repo: &String,
    branch: &String,
    registry: &String,
    tag: &String,
    build_args: Option<&String>,
    arches: Option<&String>,
    action: Option<&String>,
) -> (r: Result<BuildPlan, String>)
    ensures
        match r {
            Ok(p) => (forall|k: int|
                0 <= k < arches_spec(arches).len() ==> arch_ok(#[trigger] arches_spec(arches)[k]))
                && p.create_builder_cmd@ == "docker buildx create --name bitcoind-builder --use"@
                && p.use_builder_cmd@ == "docker buildx use bitcoind-builder"@
                && p.cleanup_builder_cmd@ == "docker buildx rm bitcoind-builder"@ && p.build_cmd@
                == build_cmd_spec(repo@, branch@, registry@, tag@, build_args, arches, action),
            Err(_) => exists|k: int|
                0 <= k < arches_spec(arches).len() && !arch_ok(#[trigger] arches_spec(arches)[k]),
        },
{
    let build_arches: Vec<String> = match arches {
        Some(a) => split_commas(a.as_str()),
        None => {
            let mut v: Vec<String> = Vec::new();
            v.push(String::from_str("amd64"));
            v
        },
    };
    proof {
        assert(views_of(build_arches@) =~~= arches_spec(arches));
    }
    let amd64 = String::from_str("amd64");
    let arm64 = String::from_str("arm64");
    let armv7 = String::from_str("armv7");
    let mut k: usize = 0;
    while k < build_arches.len()
        invariant
            k <= build_arches@.len(),
            views_of(build_arches@) == arches_spec(arches),
            amd64@ == "amd64"@,
            arm64@ == "arm64"@,
            armv7@ == "armv7"@,
            forall|q: int|
                0 <= q < k ==> arch_ok(#[trigger] views_of(build_arches@)[q]),
        decreases build_arches@.len() - k,
    {
        let a = &build_arches[k];
        let good = *a == amd64 || *a == arm64 || *a == armv7;
        if !good {
            proof {
                assert(views_of(build_arches@)[k as int] == build_arches@[k as int]@);
                assert(!arch_ok(arches_spec(arches)[k as int]));
            }
            let mut msg = String::from_str("Unsupported architecture: ");
            msg.append(a.as_str());
            return Err(msg);
        }
        proof {
            assert(views_of(build_arches@)[k as int] == build_arches@[k as int]@);
        }
        k += 1;
    }
    let mut platforms: Vec<String> = Vec::new();
    let mut k: usize = 0;
    while k < build_arches.len()
        invariant
            k <= build_arches@.len(),
            views_of(build_arches@) == arches_spec(arches),
            views_of(platforms@) == platform_parts(arches_spec(arches).subrange(0, k as int)),
        decreases build_arches@.len() - k,
    {
        let ghost oldp = platforms@;
        let mut p = String::from_str("linux/");
        p.append(build_arches[k].as_str());
        platforms.push(p);
        proof {
            let all = arches_spec(arches);
            assert(views_of(build_arches@)[k as int] == build_arches@[k as int]@);
            assert(p@ =~= platform_of(all[k as int]));
            let lhs = views_of(platforms@);
            let rhs = platform_parts(all.subrange(0, k + 1));
            assert(views_of(oldp).len() == oldp.len());
            assert(platform_parts(all.subrange(0, k as int)).len() == k);
            assert forall|q: int| 0 <= q < lhs.len() implies lhs[q] == rhs[q] by {
                assert(lhs[q] == platforms@[q]@);
                assert(rhs[q] == platform_of(all.subrange(0, k + 1)[q]));
                assert(all.subrange(0, k + 1)[q] == all[q]);
                if q < k {
                    assert(platforms@[q] == oldp[q]);
                    assert(views_of(oldp)[q] == oldp[q]@);
                    assert(platform_parts(all.subrange(0, k as int))[q] == platform_of(
                        all.subrange(0, k as int)[q],
                    ));
                    assert(all.subrange(0, k as int)[q] == all[q]);
                } else {
                    assert(platforms@[q] == p);
                }
            }
            assert(lhs =~= rhs);
        }
        k += 1;
    }
    proof {
        let all = arches_spec(arches);
        assert(all.subrange(0, all.len() as int) =~= all);
    }
    let platform_str = join_comma(&platforms);
    proof {
        assert(platform_parts(arches_spec(arches).subrange(0, arches_spec(arches).len() as int))
            =~~= platform_parts(arches_spec(arches)));
        assert(platform_str@ == platforms_spec(arches_spec(arches)));
    }
    let args_str = match build_args {
        Some(a) => {
            let mut q = String::from_str("\"");
            q.append(a.as_str());
            q.append("\"");
            proof {
                reveal_strlit("\"");
                assert(q@ =~= seq!['"'] + a@ + seq!['"']);
            }
            q
        },
        None => String::from_str(
            "\"--disable-tests --without-gui --disable-bench --disable-fuzz-binary --enable-suppress-external-warnings \"",
        ),
    };
    let action_str = match action {
        Some(a) => a.clone(),
        None => String::from_str("load"),
    };
    let mut build_cmd = String::from_str("docker buildx build --platform ");
    build_cmd.append(platform_str.as_str());
    build_cmd.append(" --build-arg REPO=");
    build_cmd.append(repo.as_str());
    build_cmd.append(" --build-arg BRANCH=");
    build_cmd.append(branch.as_str());
    build_cmd.append(" --build-arg BUILD_ARGS=");
    build_cmd.append(args_str.as_str());
    build_cmd.append(" --tag ");
    build_cmd.append(registry.as_str());
    build_cmd.append(":");
    build_cmd.append(tag.as_str());
    build_cmd.append(" --file src/templates/Dockerfile . --");
    build_cmd.append(action_str.as_str());
    proof {
        reveal_strlit(":");
        assert(build_cmd@ =~= build_cmd_spec(
            repo@,
            branch@,
            registry@,
            tag@,
            build_args,
            arches,
            action,
        ));
    }
    Ok(
        BuildPlan {
            create_builder_cmd: String::from_str("docker buildx create --name bitcoind-builder --use"),
            use_builder_cmd: String::from_str("docker buildx use bitcoind-builder"),
            build_cmd,
            cleanup_builder_cmd: String::from_str("docker buildx rm bitcoind-builder"),
        },
    )
}

} // verus!
