use warnet_cli::image::{build_image_plan, split_commas};

#[test]
fn split_commas_keeps_tokens() {
    assert_eq!(split_commas("amd64,arm64"), vec!["amd64".to_string(), "arm64".to_string()]);
    assert_eq!(split_commas("amd64"), vec!["amd64".to_string()]);
    assert_eq!(split_commas(""), vec!["".to_string()]);
    assert_eq!(split_commas("a,,b"), vec!["a".to_string(), "".to_string(), "b".to_string()]);
    assert_eq!(split_commas("a,"), vec!["a".to_string(), "".to_string()]);
}

#[test]
fn build_plan_with_defaults() {
    let plan = build_image_plan(
        &"bitcoin/bitcoin".to_string(),
        &"v27.0".to_string(),
        &"user/repo".to_string(),
        &"27.0-warnet".to_string(),
        None,
        None,
        None,
    )
    .unwrap();
    assert_eq!(plan.create_builder_cmd, "docker buildx create --name bitcoind-builder --use");
    assert_eq!(plan.use_builder_cmd, "docker buildx use bitcoind-builder");
    assert_eq!(plan.cleanup_builder_cmd, "docker buildx rm bitcoind-builder");
    assert_eq!(
        plan.build_cmd,
        "docker buildx build --platform linux/amd64 --build-arg REPO=bitcoin/bitcoin \
--build-arg BRANCH=v27.0 --build-arg BUILD_ARGS=\"--disable-tests --without-gui \
--disable-bench --disable-fuzz-binary --enable-suppress-external-warnings \" \
--tag user/repo:27.0-warnet --file src/templates/Dockerfile . --load"
    );
}

#[test]
fn build_plan_with_custom_settings() {
    let args = "--without-gui".to_string();
    let arches = "amd64,arm64".to_string();
    let action = "push".to_string();
    let plan = build_image_plan(
        &"me/fork".to_string(),
        &"feature".to_string(),
        &"reg/img".to_string(),
        &"dev".to_string(),
        Some(&args),
        Some(&arches),
        Some(&action),
    )
    .unwrap();
    assert_eq!(
        plan.build_cmd,
        "docker buildx build --platform linux/amd64,linux/arm64 --build-arg REPO=me/fork \
--build-arg BRANCH=feature --build-arg BUILD_ARGS=\"--without-gui\" \
--tag reg/img:dev --file src/templates/Dockerfile . --push"
    );
}

#[test]
fn build_plan_rejects_unknown_architecture() {
    let arches = "amd64,riscv".to_string();
    let r = build_image_plan(
        &"r".to_string(),
        &"b".to_string(),
        &"g".to_string(),
        &"t".to_string(),
        None,
        Some(&arches),
        None,
    );
    assert!(r.is_err());
}
