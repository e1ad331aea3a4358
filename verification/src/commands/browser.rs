//! The in-app browser's state: the label of its webview, if one is open.
use vstd::prelude::*;

verus! {

/// The webview label the in-app browser uses.
pub open spec fn browser_label_spec() -> Seq<char> {
    "browser-webview"@
}

/// The webview label the in-app browser uses.
pub fn browser_label() -> (r: String)
    ensures
        r@ == browser_label_spec(),
{
    String::from_str("browser-webview")
}

/// Which webview is the in-app browser, if any.
pub struct BrowserState {
    pub webview_label: Option<String>,
}

impl BrowserState {
    /// No browser webview.
    pub fn new() -> (r: Self)
        ensures
            r.webview_label is None,
    {
        BrowserState { webview_label: None }
    }

    /// Records the opened browser webview.
    pub fn opened(&mut self)
        ensures
            final(self).webview_label matches Some(l) && l@ == browser_label_spec(),
    {
        self.webview_label = Some(browser_label());
    }

    /// Forgets the browser webview, giving the label it had (to close it).
    pub fn closed(&mut self) -> (r: Option<String>)
        ensures
            final(self).webview_label is None,
            r == old(self).webview_label,
    {
        let mut label: Option<String> = None;
        std::mem::swap(&mut label, &mut self.webview_label);
        label
    }
}

/// The script the in-app browser injects into every page: it reports HLS and
/// DASH manifests the page loads (through `fetch`, `XMLHttpRequest`, media
/// elements and Media Source Extensions) to the application, with the page's
/// title and URL.
pub const STREAM_DETECTION_SCRIPT: &'static str = r#"
    (function() {
        if (window.__cybersnatcher_injected) return;
        window.__cybersnatcher_injected = true;

        const seen = new Set();

        function getPageTitle() {
            try { var og = document.querySelector('meta[property="og:title"]');
                  if (og && og.getAttribute('content')) return og.getAttribute('content').trim(); } catch(e) {}
            try { var tw = document.querySelector('meta[name="twitter:title"]');
                  if (tw && tw.getAttribute('content')) return tw.getAttribute('content').trim(); } catch(e) {}
            try { var h1 = document.querySelector('h1');
                  if (h1 && h1.textContent && h1.textContent.trim()) return h1.textContent.trim(); } catch(e) {}
            return document.title || '';
        }

        function sendStreamEvent(url, streamType) {
            var title = getPageTitle();
            var payload = JSON.stringify({
                manifest_url: url,
                stream_type: streamType,
                page_url: window.location.href,
                page_title: title
            });

            // Try all available IPC methods
            try {
                if (window.__TAURI_INTERNALS__ && window.__TAURI_INTERNALS__.invoke) {
                    window.__TAURI_INTERNALS__.invoke('on_stream_detected', {
                        manifestUrl: url,
                        streamType: streamType,
                        pageUrl: window.location.href,
                        pageTitle: title
                    }).catch(function() {});
                    return;
                }
            } catch(e) {}

            try {
                if (window.ipc && window.ipc.postMessage) {
                    window.ipc.postMessage('stream_detected:' + payload);
                    return;
                }
            } catch(e) {}

            try {
                if (window.__TAURI_IPC__) {
                    window.__TAURI_IPC__('stream_detected:' + payload);
                    return;
                }
            } catch(e) {}
        }

        function notifyStream(url, streamType) {
            if (!url || seen.has(url)) return;
            seen.add(url);
            sendStreamEvent(url, streamType);
        }

        // Save original fetch before hooking — used by checkUrl for m3u8 classification
        var origFetch = window.fetch;

        function checkUrl(url) {
            if (!url || typeof url !== 'string') return;
            if (seen.has(url)) return;
            try {
                var lower = url.toLowerCase();
                var isM3u8 = lower.includes('.m3u8');
                var isMpd = lower.includes('.mpd');

                if (isM3u8 && origFetch) {
                    // Mark as seen immediately to prevent duplicate processing
                    seen.add(url);
                    // Fetch playlist content to classify master vs media
                    origFetch(url).then(function(r) { return r.text(); }).then(function(text) {
                        if (text.indexOf('#EXT-X-STREAM-INF') !== -1) {
                            // Master playlist — extract variant URLs and suppress them
                            var lines = text.split('\n');
                            for (var i = 0; i < lines.length; i++) {
                                var line = lines[i].trim();
                                if (line && !line.startsWith('#')) {
                                    try {
                                        var variantUrl = new URL(line, url).href;
                                        seen.add(variantUrl);
                                    } catch(e2) {}
                                }
                            }
                            sendStreamEvent(url, 'hls');
                        } else if (text.indexOf('#EXTINF') !== -1 || text.indexOf('#EXTM3U') !== -1) {
                            // Media playlist (standalone, not a variant of a known master)
                            sendStreamEvent(url, 'hls');
                        }
                    }).catch(function() {
                        // Fetch failed — notify anyway, backend will validate
                        sendStreamEvent(url, 'hls');
                    });
                } else if (isM3u8) {
                    // No fetch available, fall back to direct notify
                    notifyStream(url, 'hls');
                } else if (isMpd) {
                    notifyStream(url, 'dash');
                }
            } catch(e) {}
        }

        function checkContentType(url, ct) {
            if (!ct || !url) return;
            ct = ct.toLowerCase();
            if (ct.includes('mpegurl') || ct.includes('x-mpegurl')) {
                checkUrl(url);
            } else if (ct.includes('dash+xml')) {
                notifyStream(url, 'dash');
            }
        }

        // 1. Intercept fetch()
        if (window.fetch) {
            window.fetch = function() {
                var input = arguments[0];
                var url = typeof input === 'string' ? input : (input && input.url ? input.url : '');
                checkUrl(url);
                return origFetch.apply(this, arguments).then(function(response) {
                    try {
                        checkUrl(response.url);
                        checkContentType(response.url, response.headers.get('content-type'));
                    } catch(e) {}
                    return response;
                });
            };
        }

        // 2. Intercept XMLHttpRequest
        var origXHROpen = XMLHttpRequest.prototype.open;
        var origXHRSend = XMLHttpRequest.prototype.send;
        XMLHttpRequest.prototype.open = function(method, url) {
            this.__cs_url = url;
            checkUrl(String(url));
            return origXHROpen.apply(this, arguments);
        };
        XMLHttpRequest.prototype.send = function() {
            var self = this;
            this.addEventListener('load', function() {
                try {
                    var ct = self.getResponseHeader('content-type');
                    checkContentType(self.__cs_url || self.responseURL, ct);
                    checkUrl(self.responseURL);
                } catch(e) {}
            });
            return origXHRSend.apply(this, arguments);
        };

        // 3. PerformanceObserver — catches ALL network requests
        // This is critical for catching requests made by native video elements,
        // MSE players, and any other method that bypasses fetch/XHR interception
        try {
            var perfObserver = new PerformanceObserver(function(list) {
                var entries = list.getEntries();
                for (var i = 0; i < entries.length; i++) {
                    var entry = entries[i];
                    if (entry.name) {
                        checkUrl(entry.name);
                    }
                }
            });
            perfObserver.observe({ type: 'resource', buffered: true });
        } catch(e) {}

        // 4. MutationObserver — watch for video/source elements
        try {
            var domObserver = new MutationObserver(function(mutations) {
                for (var i = 0; i < mutations.length; i++) {
                    var m = mutations[i];
                    for (var j = 0; j < m.addedNodes.length; j++) {
                        var node = m.addedNodes[j];
                        if (node.nodeType !== 1) continue;
                        if (node.tagName === 'VIDEO' || node.tagName === 'SOURCE' || node.tagName === 'IFRAME') {
                            checkUrl(node.src || node.getAttribute('src') || '');
                        }
                        if (node.querySelectorAll) {
                            var elems = node.querySelectorAll('video, source, video source');
                            for (var k = 0; k < elems.length; k++) {
                                checkUrl(elems[k].src || elems[k].getAttribute('src') || '');
                            }
                        }
                    }
                    // Also check attribute changes on video/source
                    if (m.type === 'attributes' && m.target && m.target.tagName) {
                        if (m.target.tagName === 'VIDEO' || m.target.tagName === 'SOURCE') {
                            checkUrl(m.target.src || m.target.getAttribute('src') || '');
                        }
                    }
                }
            });
            domObserver.observe(document.documentElement, {
                childList: true,
                subtree: true,
                attributes: true,
                attributeFilter: ['src']
            });
        } catch(e) {}

        // 5. Periodic polling — catches dynamically set video sources
        setInterval(function() {
            try {
                var videos = document.querySelectorAll('video');
                for (var i = 0; i < videos.length; i++) {
                    var v = videos[i];
                    if (v.src) checkUrl(v.src);
                    if (v.currentSrc) checkUrl(v.currentSrc);
                    // Check source children
                    var sources = v.querySelectorAll('source');
                    for (var j = 0; j < sources.length; j++) {
                        if (sources[j].src) checkUrl(sources[j].src);
                    }
                }
            } catch(e) {}
        }, 3000);

        // 6. Intercept MediaSource.addSourceBuffer — detect MSE MIME types
        try {
            if (window.MediaSource && window.MediaSource.prototype.addSourceBuffer) {
                var origAddSB = window.MediaSource.prototype.addSourceBuffer;
                window.MediaSource.prototype.addSourceBuffer = function(mime) {
                    // MSE is being used; the actual URLs come through fetch/XHR/perf observer
                    return origAddSB.apply(this, arguments);
                };
            }
        } catch(e) {}

        // 7. Check existing video elements immediately
        try {
            document.querySelectorAll('video, source').forEach(function(el) {
                checkUrl(el.src || el.getAttribute('src') || '');
                if (el.currentSrc) checkUrl(el.currentSrc);
            });
        } catch(e) {}

        // Also scan after a delay for lazy-loaded players
        setTimeout(function() {
            try {
                document.querySelectorAll('video, source').forEach(function(el) {
                    checkUrl(el.src || el.getAttribute('src') || '');
                    if (el.currentSrc) checkUrl(el.currentSrc);
                });
            } catch(e) {}
        }, 2000);

        setTimeout(function() {
            try {
                document.querySelectorAll('video, source').forEach(function(el) {
                    checkUrl(el.src || el.getAttribute('src') || '');
                    if (el.currentSrc) checkUrl(el.currentSrc);
                });
            } catch(e) {}
        }, 5000);
    })();
    "#;

/// The stream-detection script (see [`STREAM_DETECTION_SCRIPT`]).
pub fn stream_detection_script() -> (r: String)
    ensures
        r@ == STREAM_DETECTION_SCRIPT@,
{
    String::from_str(STREAM_DETECTION_SCRIPT)
}

} // verus!
