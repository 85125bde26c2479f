use workd::names::{
    ComponentName, Error, Name, PodName, ServiceName, COMPONENT_ERROR_MSG,
    FULL_COMPONENT_ERROR_MSG, FULL_SERVICE_ERROR_MSG, POD_ERROR_MSG, SERVICE_ERROR_MSG,
};

fn parse_and_convert_all(
    name: &str,
) -> (
    Result<ServiceName, Error>,
    Result<ServiceName, Error>,
    Result<ComponentName, Error>,
    Result<ComponentName, Error>,
    Result<PodName, Error>,
) {
    (
        Name::parse(name).full_service(),
        Name::parse(name).service(),
        Name::parse(name).full_component(),
        Name::parse(name).component(),
        Name::parse(name).pod(),
    )
}

#[test]
fn full_service() {
    let (full_service_name, service_name, full_component_name, component_name, pod_name) =
        parse_and_convert_all("ex_am-ple.c0m:some.Service");

    assert!(full_service_name.is_ok());
    let full_service_name = full_service_name.unwrap();
    assert_eq!(full_service_name.domain, "ex_am-ple.c0m");
    assert_eq!(full_service_name.service, "some.Service");
    assert_eq!(full_service_name.to_string(), "ex_am-ple.c0m:some.Service");

    assert!(service_name.is_ok());
    assert_eq!(service_name.unwrap(), full_service_name);

    assert!(full_component_name.is_err());
    assert_eq!(full_component_name.unwrap_err().msg, FULL_COMPONENT_ERROR_MSG);
    assert!(component_name.is_err());
    assert_eq!(component_name.unwrap_err().msg, COMPONENT_ERROR_MSG);
    assert!(pod_name.is_err());
    assert_eq!(pod_name.unwrap_err().msg, POD_ERROR_MSG);
}

#[test]
fn full_component() {
    let (full_service_name, service_name, full_component_name, component_name, pod_name) =
        parse_and_convert_all(
            "this.is.just.under.sixty.three.characters.which.is.the.maximum:some.Service@1.0.0",
        );

    assert!(full_component_name.is_ok());
    let full_component_name = full_component_name.unwrap();
    assert_eq!(
        full_component_name.service.domain,
        "this.is.just.under.sixty.three.characters.which.is.the.maximum"
    );
    assert_eq!(full_component_name.service.service, "some.Service");
    assert_eq!(full_component_name.version, "1.0.0");
    assert_eq!(
        full_component_name.to_string(),
        "this.is.just.under.sixty.three.characters.which.is.the.maximum:some.Service@1.0.0"
    );

    assert!(component_name.is_ok());
    assert_eq!(component_name.unwrap(), full_component_name);

    assert!(full_service_name.is_err());
    assert_eq!(full_service_name.unwrap_err().msg, FULL_SERVICE_ERROR_MSG);
    assert!(service_name.is_err());
    assert_eq!(service_name.unwrap_err().msg, SERVICE_ERROR_MSG);
    assert!(pod_name.is_err());
    assert_eq!(pod_name.unwrap_err().msg, POD_ERROR_MSG);
}

#[test]
fn pod() {
    let (full_service_name, service_name, full_component_name, component_name, pod_name) =
        parse_and_convert_all("example.com:some.Service@1.0.0#19AF0");

    assert!(pod_name.is_ok());
    let pod_name = pod_name.unwrap();
    assert_eq!(pod_name.component.service.domain, "example.com");
    assert_eq!(pod_name.component.service.service, "some.Service");
    assert_eq!(pod_name.component.version, "1.0.0");
    assert_eq!(pod_name.pod, 0x19af0usize);
    assert_eq!(pod_name.to_string(), "example.com:some.Service@1.0.0#19AF0");

    assert!(full_service_name.is_err());
    assert_eq!(full_service_name.unwrap_err().msg, FULL_SERVICE_ERROR_MSG);
    assert!(service_name.is_err());
    assert_eq!(service_name.unwrap_err().msg, SERVICE_ERROR_MSG);
    assert!(full_component_name.is_err());
    assert_eq!(full_component_name.unwrap_err().msg, FULL_COMPONENT_ERROR_MSG);
    assert!(component_name.is_err());
    assert_eq!(component_name.unwrap_err().msg, COMPONENT_ERROR_MSG);
}

#[test]
fn service() {
    let (full_service_name, service_name, full_component_name, component_name, pod_name) =
        parse_and_convert_all("com.example.Service");

    assert!(service_name.is_ok());
    let service_name = service_name.unwrap();
    assert_eq!(service_name.domain, "example.com");
    assert_eq!(service_name.service, "com.example.Service");

    assert!(full_service_name.is_err());
    assert_eq!(full_service_name.unwrap_err().msg, FULL_SERVICE_ERROR_MSG);

    assert!(full_component_name.is_err());
    assert!(component_name.is_err());
    assert!(pod_name.is_err());
}

#[test]
fn component() {
    let (full_service_name, service_name, full_component_name, component_name, pod_name) =
        parse_and_convert_all("com.example.Service@0.0.123--0-fersher");

    assert!(component_name.is_ok());
    let component_name = component_name.unwrap();
    assert_eq!(component_name.service.domain, "example.com");
    assert_eq!(component_name.service.service, "com.example.Service");
    assert_eq!(component_name.version, "0.0.123--0-fersher");

    assert!(full_component_name.is_err());
    assert_eq!(full_component_name.unwrap_err().msg, FULL_COMPONENT_ERROR_MSG);

    assert!(full_service_name.is_err());
    assert!(service_name.is_err());
    assert!(pod_name.is_err());
}

#[test]
fn bad_domain() {
    let bad_domains = vec![
        "tld",
        "_starts.underscore",
        "ends.dash-",
        "this.is.longer.than.sixty.three.characters.which.is.the.maximum.allowed",
    ];
    for domain in bad_domains.iter() {
        let name = format!("{domain}:some.Service");
        let service_name = Name::parse(&name).service();

        assert!(service_name.is_err());
        assert_eq!(service_name.unwrap_err().msg, format!("Invalid domain: {domain}"));
    }
}

#[test]
fn bad_default_domain() {
    // The default domain would be a TLD in this case.
    let service_name = Name::parse("com.Service").service();

    assert!(service_name.is_err());
    assert_eq!(service_name.unwrap_err().msg, "Invalid domain: com");
}

#[test]
fn bad_service_name() {
    let bad_services = vec!["NoPackage", "_package.StartsUnderscore"];
    for service in bad_services.iter() {
        let name = format!("example.com:{service}");
        let service_name = Name::parse(&name).service();

        assert!(service_name.is_err());
        assert_eq!(service_name.unwrap_err().msg, format!("Invalid service name: {service}"));
    }
}

#[test]
fn bad_version() {
    let bad_versions = vec![
        "1.0.00",
        "1.2.3+build",
        "1.2.3-ends-dash-",
        "1.2.3-00",
        "1234567890.1234567890.1234567890-ABCDEFGHIJKLMNOPQRSTUVWXYZ-abcdefghijklmnopqrstuvwxyz",
    ];
    for version in bad_versions.iter() {
        let name = format!("example.com:some.Service@{version}");
        let component_name = Name::parse(&name).component();

        assert!(component_name.is_err());
        assert_eq!(component_name.unwrap_err().msg, format!("Invalid version: {version}"));
    }
}

#[test]
fn good_version() {
    let good_versions = vec!["1.0.0", "1.2.3-pre-release", "1.2.3-0", "1.2.3-123", "1.2.3-00a"];
    for version in good_versions.iter() {
        let name = format!("example.com:some.Service@{version}");
        assert!(Name::parse(&name).component().is_ok());
    }
}

#[test]
fn bad_pod_id() {
    let bad_pod_ids = vec!["abcdefg", "-1", "10000000000000000"];
    for pod_id in bad_pod_ids.iter() {
        let name = format!("example.com:some.Service@1.2.3#{pod_id}");
        let pod_name = Name::parse(&name).pod();

        assert!(pod_name.is_err());
        assert_eq!(pod_name.unwrap_err().msg, format!("Invalid pod ID: {pod_id}"));
    }
}

#[test]
fn good_pod_id() {
    let good_pod_ids = vec!["abcdefff", "0", "FFFFFFFFFFFFFFFF"];
    for pod_id in good_pod_ids.iter() {
        let name = format!("example.com:some.Service@1.2.3#{pod_id}");
        assert!(Name::parse(&name).pod().is_ok());
    }
}

#[test]
fn version_length_limit() {
    // Versions are K8s label values: 63 characters at most.
    let longest = format!("1.0.0-{}", "a".repeat(57));
    assert_eq!(longest.len(), 63);
    let name = format!("example.com:some.Service@{longest}");
    assert_eq!(Name::parse(&name).component().unwrap().version, longest);
    let too_long = format!("1.0.0-{}", "a".repeat(58));
    let name = format!("example.com:some.Service@{too_long}");
    assert!(Name::parse(&name).component().is_err());
}
