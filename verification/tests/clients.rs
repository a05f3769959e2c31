use mjpeg_proxy::clients::{client_connected, client_disconnected, ClientCount, Wakeup};
use mjpeg_proxy::jpeg::ImageFault;
use mjpeg_proxy::last_image::{get_last_image, prepare_last_image, set_last_image, LastImage};

#[test]
fn a_client_is_counted_and_wakes_everyone() {
    let mut clients = ClientCount::new();
    assert_eq!(clients.get(), 0);
    assert_eq!(client_connected(&mut clients), Wakeup::Everyone);
    assert_eq!(client_connected(&mut clients), Wakeup::Everyone);
    assert_eq!(clients.get(), 2);
}

#[test]
fn a_client_that_goes_wakes_nobody() {
    let mut clients = ClientCount::new();
    client_connected(&mut clients);
    client_connected(&mut clients);
    assert_eq!(client_disconnected(&mut clients), Wakeup::Nobody);
    assert_eq!(clients.get(), 1);
    assert_eq!(client_disconnected(&mut clients), Wakeup::Nobody);
    assert_eq!(clients.get(), 0);
}

#[test]
fn the_last_image_is_kept() {
    let mut last = LastImage::new();
    assert_eq!(get_last_image(&last), Vec::<u8>::new());
    set_last_image(&mut last, vec![1, 2, 3]);
    assert_eq!(get_last_image(&last), vec![1, 2, 3]);
    set_last_image(&mut last, vec![9]);
    assert_eq!(get_last_image(&last), vec![9]);
    assert_eq!(get_last_image(&last), vec![9]);
    assert!(last.holds(&vec![9]));
    assert!(!last.holds(&vec![8]));
    assert!(!last.holds(&vec![]));
    assert_eq!(prepare_last_image(&mut last, 10), Err(ImageFault::NotJpeg));
}
