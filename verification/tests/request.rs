use halldisplay::{request_image, wifi, AuthMethod, ImageRequestError, WifiConfig, WifiError};

#[test]
fn accepted_frame_is_handed_back() {
    assert_eq!(request_image(200, vec![1, 2, 3], 3), Ok(vec![1, 2, 3]));
}

#[test]
fn status_is_checked_first() {
    assert_eq!(request_image(404, vec![], 3), Err(ImageRequestError::BadStatus { status: 404 }));
    assert_eq!(
        request_image(500, vec![1, 2, 3], 3),
        Err(ImageRequestError::BadStatus { status: 500 })
    );
}

#[test]
fn empty_body_is_refused() {
    assert_eq!(request_image(200, vec![], 3), Err(ImageRequestError::EmptyBody));
    assert_eq!(request_image(200, vec![], 0), Err(ImageRequestError::EmptyBody));
}

#[test]
fn body_of_the_wrong_size_is_refused() {
    assert_eq!(
        request_image(200, vec![1, 2], 96000),
        Err(ImageRequestError::WrongSize { expected: 96000, got: 2 })
    );
    assert_eq!(
        request_image(200, vec![1, 2, 3, 4], 3),
        Err(ImageRequestError::WrongSize { expected: 3, got: 4 })
    );
}

#[test]
fn wifi_settings() {
    let config = WifiConfig { ssid: "home", psk: "secret" };
    assert_eq!(wifi(config.ssid, config.psk), Ok(AuthMethod::Wpa3Personal));
    assert_eq!(wifi("home", ""), Ok(AuthMethod::Open));
    assert_eq!(wifi("", "secret"), Err(WifiError::MissingName));
    assert_eq!(wifi("", ""), Err(WifiError::MissingName));
}
