use pixel_bot::capture::CaptureError;
use pixel_bot::capture::DXGICapturer;
use pixel_bot::capture::Poll;
use pixel_bot::capture::Request;
use pixel_bot::capture::Stage;
use pixel_bot::capture::DXGI_ERROR_ACCESS_LOST;
use pixel_bot::capture::DXGI_ERROR_NOT_CURRENTLY_AVAILABLE;
use pixel_bot::capture::DXGI_ERROR_WAIT_TIMEOUT;
use pixel_bot::capture::E_ACCESSDENIED;
use pixel_bot::capture::E_HANDLE;

fn opened() -> DXGICapturer {
    let (mut c, first) = DXGICapturer::new();
    assert_eq!(first, Poll::Pending(Request::OpenInputDesktop));
    assert_eq!(c.resume(Ok(())), Poll::Pending(Request::AttachDesktop));
    assert_eq!(c.resume(Err(5)), Poll::Pending(Request::FindPrimaryOutput));
    assert_eq!(c.resume(Ok(())), Poll::Pending(Request::CreateDevice));
    assert_eq!(c.resume(Ok(())), Poll::Pending(Request::DuplicateOutput));
    assert_eq!(c.resume(Ok(())), Poll::Opened);
    c
}

fn with_frame() -> DXGICapturer {
    let mut c = opened();
    assert_eq!(c.capture_frame(0), Poll::Pending(Request::AcquireNextFrame(0)));
    assert_eq!(c.resume(Ok(())), Poll::Pending(Request::StageFrame));
    assert_eq!(c.resume(Ok(())), Poll::Pending(Request::MapSurface));
    assert_eq!(c.resume(Ok(())), Poll::Frame);
    c
}

#[test]
fn access_lost_is_told_apart_from_other_failures() {
    assert_eq!(CaptureError::from(DXGI_ERROR_ACCESS_LOST), CaptureError::AccessLost);
    assert_eq!(CaptureError::from(0x887A_0026), CaptureError::AccessLost);
    assert_eq!(CaptureError::from(E_HANDLE), CaptureError::WinErr(0x8007_0006));
    assert_eq!(
        CaptureError::from(DXGI_ERROR_WAIT_TIMEOUT),
        CaptureError::WinErr(DXGI_ERROR_WAIT_TIMEOUT)
    );
    assert_eq!(CaptureError::from(0), CaptureError::WinErr(0));
}

#[test]
fn opening_ends_with_a_duplication() {
    let c = opened();
    assert!(c.is_ready());
    assert!(c.duplication);
    assert!(!c.surface);
    assert_eq!(c.stage, Stage::Idle);
}

#[test]
fn opening_fails_on_a_bad_desktop_handle() {
    let (mut c, _) = DXGICapturer::new();
    assert_eq!(c.resume(Err(1234)), Poll::Failed(CaptureError::WinErr(E_HANDLE)));
    assert!(!c.is_ready());
}

#[test]
fn opening_hands_on_the_failure_of_a_later_call() {
    let (mut c, _) = DXGICapturer::new();
    c.resume(Ok(()));
    c.resume(Ok(()));
    assert_eq!(c.resume(Err(77)), Poll::Failed(CaptureError::WinErr(77)));
    let (mut d, _) = DXGICapturer::new();
    d.resume(Ok(()));
    d.resume(Ok(()));
    d.resume(Ok(()));
    d.resume(Ok(()));
    assert_eq!(
        d.resume(Err(DXGI_ERROR_NOT_CURRENTLY_AVAILABLE)),
        Poll::Failed(CaptureError::WinErr(DXGI_ERROR_NOT_CURRENTLY_AVAILABLE))
    );
    assert!(!d.duplication);
}

#[test]
fn first_capture_maps_a_frame() {
    let c = with_frame();
    assert!(c.surface);
    assert!(c.duplication);
    assert!(c.is_ready());
}

#[test]
fn capture_releases_the_frame_before_the_next() {
    let mut c = with_frame();
    assert_eq!(c.capture_frame(16), Poll::Pending(Request::Unmap));
    assert!(c.surface);
    assert_eq!(c.resume(Ok(())), Poll::Pending(Request::ReleaseFrame));
    assert!(!c.surface);
    assert_eq!(c.resume(Ok(())), Poll::Pending(Request::AcquireNextFrame(16)));
    assert_eq!(c.resume(Ok(())), Poll::Pending(Request::StageFrame));
    assert_eq!(c.resume(Ok(())), Poll::Pending(Request::MapSurface));
    assert!(!c.surface);
    assert_eq!(c.resume(Ok(())), Poll::Frame);
    assert!(c.surface);
}

#[test]
fn timeout_is_no_new_frame() {
    let mut c = opened();
    c.capture_frame(0);
    assert_eq!(c.resume(Err(DXGI_ERROR_WAIT_TIMEOUT)), Poll::NoNewFrame);
    assert!(c.is_ready());
    assert!(!c.surface);
}

#[test]
fn access_lost_during_capture_leaves_the_capturer_ready_to_reload() {
    let mut c = opened();
    c.capture_frame(0);
    assert_eq!(
        c.resume(Err(DXGI_ERROR_ACCESS_LOST)),
        Poll::Failed(CaptureError::AccessLost)
    );
    assert!(c.is_ready());
    assert_eq!(c.reload(), Poll::Pending(Request::DropDuplication));
}

#[test]
fn other_failures_during_capture_are_handed_on() {
    let mut c = with_frame();
    c.capture_frame(0);
    assert_eq!(c.resume(Err(9)), Poll::Failed(CaptureError::WinErr(9)));
    assert!(c.surface);
    let mut d = opened();
    d.capture_frame(0);
    d.resume(Ok(()));
    assert_eq!(d.resume(Err(10)), Poll::Failed(CaptureError::WinErr(10)));
    let mut e = opened();
    e.capture_frame(0);
    e.resume(Ok(()));
    e.resume(Ok(()));
    assert_eq!(e.resume(Err(11)), Poll::Failed(CaptureError::WinErr(11)));
    assert!(!e.surface);
}

#[test]
fn reload_releases_everything_before_it_duplicates() {
    let mut c = with_frame();
    assert_eq!(c.reload(), Poll::Pending(Request::Unmap));
    assert_eq!(c.resume(Ok(())), Poll::Pending(Request::ReleaseFrame));
    assert_eq!(c.resume(Ok(())), Poll::Pending(Request::DropDuplication));
    assert!(c.duplication);
    assert_eq!(c.resume(Ok(())), Poll::Pending(Request::DuplicateOutput));
    assert!(!c.duplication);
    assert!(!c.surface);
    assert_eq!(c.resume(Ok(())), Poll::Reloaded);
    assert!(c.is_ready());
}

#[test]
fn reload_yields_and_tries_again_while_access_is_denied() {
    let mut c = opened();
    c.reload();
    assert_eq!(c.resume(Ok(())), Poll::Pending(Request::DuplicateOutput));
    for _ in 0..100 {
        assert_eq!(c.resume(Err(E_ACCESSDENIED)), Poll::Pending(Request::Yield));
        assert_eq!(c.resume(Ok(())), Poll::Pending(Request::DuplicateOutput));
        assert!(!c.duplication);
    }
    assert_eq!(c.resume(Ok(())), Poll::Reloaded);
    assert!(c.duplication);
}

#[test]
fn reload_fails_on_any_other_error() {
    let mut c = opened();
    c.reload();
    c.resume(Ok(()));
    assert_eq!(
        c.resume(Err(DXGI_ERROR_NOT_CURRENTLY_AVAILABLE)),
        Poll::Failed(CaptureError::WinErr(DXGI_ERROR_NOT_CURRENTLY_AVAILABLE))
    );
    assert!(!c.duplication);
    assert!(!c.is_ready());
}
