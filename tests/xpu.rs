use libonm::rest::{RestError, RestMethod};
use libonm::xpu::{
    build, BMCVersion, DiscoverAction, DiscoverState, RedfishError, XPUError, XPUStatus, BMC, XPU,
};
use libonm::xpuctl;

fn bmc() -> BMC {
    BMC {
        address: "https://192.168.1.5".to_string(),
        username: "admin".to_string(),
        password: "wanted".to_string(),
    }
}

fn fail() -> Result<(), RedfishError> {
    Err(RedfishError::RestError("refused".to_string()))
}

#[test]
fn bootstrap_recovers_through_the_shipped_credentials() {
    let b = build(&bmc(), true).ok().unwrap();
    let (s, a) = b.discover_start();
    assert_eq!(s, DiscoverState::Probing);
    assert!(matches!(a, DiscoverAction::QueryVersion));
    let (s, a) = b.discover_step(s, fail());
    assert_eq!(s, DiscoverState::Recovering);
    match a {
        DiscoverAction::ChangePassword { client, request, body } => {
            assert_eq!(client.bmc().username, "root");
            assert_eq!(client.bmc().password, "0penBmc");
            assert_eq!(client.bmc().address, "https://192.168.1.5");
            assert_eq!(client.rest().user(), "root");
            assert_eq!(client.rest().password(), "0penBmc");
            assert_eq!(client.rest().address(), "192.168.1.5:443");
            assert!(client.rest().accept_invalid_certs());
            assert_eq!(request.method, RestMethod::Patch);
            assert_eq!(request.path, "/redfish/v1/AccountService/Accounts/root");
            assert_eq!(body.password, "wanted");
        },
        _ => panic!("expected a password change"),
    }
    let (s, a) = b.discover_step(s, Ok(()));
    assert_eq!(s, DiscoverState::Retrying);
    assert!(matches!(a, DiscoverAction::QueryVersion));
    let (s, a) = b.discover_step(s, Ok(()));
    assert_eq!(s, DiscoverState::Ready);
    assert!(matches!(a, DiscoverAction::Finish(Ok(()))));
}

#[test]
fn bootstrap_fails_when_the_fallback_fails() {
    let b = build(&bmc(), true).ok().unwrap();
    let (s, _) = b.discover_step(DiscoverState::Probing, fail());
    let (s, a) = b.discover_step(s, fail());
    assert_eq!(s, DiscoverState::Failed);
    assert!(matches!(a, DiscoverAction::Finish(Err(RedfishError::RestError(m))) if m == "refused"));
}

#[test]
fn bootstrap_fails_when_the_retry_fails() {
    let b = build(&bmc(), true).ok().unwrap();
    let (s, a) = b.discover_step(DiscoverState::Retrying, fail());
    assert_eq!(s, DiscoverState::Failed);
    assert!(matches!(a, DiscoverAction::Finish(Err(_))));
}

#[test]
fn probe_success_is_ready_at_once() {
    let b = build(&bmc(), true).ok().unwrap();
    let (s, a) = b.discover_step(DiscoverState::Probing, Ok(()));
    assert_eq!(s, DiscoverState::Ready);
    assert!(matches!(a, DiscoverAction::Finish(Ok(()))));
}

#[test]
fn bluefield_requests() {
    let b = build(&bmc(), true).ok().unwrap();
    let v = b.bmc_version();
    assert_eq!(v.method, RestMethod::Get);
    assert_eq!(v.path, "redfish/v1/UpdateService/FirmwareInventory/BMC_Firmware");
    assert_eq!(b.rest().address(), "192.168.1.5:443");
    assert!(b.rest().accept_invalid_certs());
    assert_eq!(b.rest().user(), "admin");
    assert_eq!(b.rest().password(), "wanted");
    assert!(!build(&bmc(), false).ok().unwrap().rest().accept_invalid_certs());
    assert!(matches!(
        build(&BMC { address: "nowhere".to_string(), ..bmc() }, true),
        Err(RedfishError::InvalidConfig(m)) if m == "invalid configuration 'invalid url'"
    ));
}

#[test]
fn xpu_from_a_version() {
    let version = BMCVersion { description: "d".to_string(), id: "BMC_Firmware".to_string(), version: "23.04".to_string() };
    let x = XPU::new(&bmc(), true, version).ok().unwrap();
    assert_eq!(x.bmc_version, "23.04");
    assert_eq!(x.status, XPUStatus::Ready);
    assert_eq!(x.status.to_string(), "Ready");
    assert_eq!((x.vendor.as_str(), x.serial_number.as_str(), x.firmware_version.as_str()), ("-", "-", "-"));
    let version = BMCVersion { description: "d".to_string(), id: "i".to_string(), version: "v".to_string() };
    assert!(matches!(
        XPU::new(&BMC { address: "x".to_string(), ..bmc() }, true, version),
        Err(XPUError::InvalidConfig(m)) if m == "invalid configuration 'invalid url'"
    ));
}

#[test]
fn bmc_errors_keep_their_kind() {
    let bmc_err = |e: RestError| XPUError::from(RedfishError::from(e));
    let e = RedfishError::from(RestError::NotFound("v".to_string()));
    assert!(matches!(&e, RedfishError::NotFound(m) if m == "'v' not found"));
    assert!(matches!(XPUError::from(e), XPUError::NotFound(m) if m == "'v' not found"));
    assert!(matches!(bmc_err(RestError::AuthFailure("u".to_string())), XPUError::InvalidConfig(m) if m == "failed to auth 'u'"));
    assert!(matches!(bmc_err(RestError::InvalidConfig("c".to_string())), XPUError::InvalidConfig(m) if m == "invalid configuration 'c'"));
    for e in [RestError::Internal("i".to_string()), RestError::Json("i".to_string()), RestError::Http("i".to_string())] {
        assert!(matches!(bmc_err(e), XPUError::Internal(m) if m == "i"));
    }
    assert_eq!(XPUStatus::Unknown.to_string(), "Unknown");
    assert_eq!(XPUStatus::Error.to_string(), "Error");
}

#[test]
fn inventory_credentials() {
    let b = xpuctl::BMC {
        name: "n".to_string(),
        vendor: "bluefield".to_string(),
        address: "https://a".to_string(),
        username: Some("u".to_string()),
        password: Some("p".to_string()),
    };
    let r = b.to_bmc();
    assert_eq!((r.address.as_str(), r.username.as_str(), r.password.as_str()), ("https://a", "u", "p"));
}
