use colourful_words::downloader::DownloaderError;
use colourful_words::logger::Logger;

#[test]
fn logging_is_callable() {
    Logger::log_info("info line");
    Logger::log_success("success line");
    Logger::log_error("error line");
}

#[test]
fn downloader_error_messages() {
    assert_eq!(
        DownloaderError::ConnectionError.message(),
        "Failed to connect to the internet"
    );
    assert_eq!(
        DownloaderError::NoResultsError.message(),
        "No results found for the given keyword"
    );
    assert_eq!(
        DownloaderError::BrowserError.message(),
        "Failed to initialize browser"
    );
    assert_eq!(
        DownloaderError::SearcherError.message(),
        "Failed to search for given keyword"
    );
}
