//! The script of the embedded GNOME Shell extension.

use vstd::prelude::*;

verus! {

/// `extension.js`: watches clipboard owner changes inside the compositor, and on
/// two copies within the double-tap window reads the clipboard and announces a
/// serial number on the session bus. The content is handed out once, to a unicast
/// call, and expires after a few seconds.
pub const EXTENSION_JS: &'static str = r#"import Gio from 'gi://Gio';
import GLib from 'gi://GLib';
import Meta from 'gi://Meta';
import Shell from 'gi://Shell';
import {Extension} from 'resource:///org/gnome/shell/extensions/extension.js';

const OBJECT_PATH = '/io/github/sincekmori/copycopy';
const INTERFACE = `
<node>
  <interface name="io.github.sincekmori.copycopy">
    <method name="GetVersion">
      <arg type="u" direction="out" name="version"/>
    </method>
    <method name="TakeCapture">
      <arg type="u" direction="in" name="serial"/>
      <arg type="s" direction="out" name="kind"/>
      <arg type="s" direction="out" name="mime"/>
      <arg type="ay" direction="out" name="data"/>
      <arg type="s" direction="out" name="plain"/>
      <arg type="s" direction="out" name="app_name"/>
      <arg type="s" direction="out" name="wm_class"/>
      <arg type="s" direction="out" name="title"/>
      <arg type="u" direction="out" name="pid"/>
    </method>
    <signal name="CaptureReady">
      <arg type="u" name="serial"/>
    </signal>
  </interface>
</node>`;

const DOUBLE_TAP_WINDOW_MS = 400;
const TRIGGER_COOLDOWN_MS = 350;
const SETTLE_MS = 60;
const EXPIRY_MS = 5000;

const FILE_TYPES = ['x-special/gnome-copied-files', 'text/uri-list'];
const IMAGE_TYPES = ['image/png'];
const HTML_TYPES = ['text/html'];
const TEXT_TYPES = ['text/plain;charset=utf-8', 'UTF8_STRING', 'text/plain', 'STRING'];

const EMPTY = new Uint8Array(0);

function nowMs() {
    return GLib.get_monotonic_time() / 1000;
}

function expired() {
    return {
        kind: 'expired', mime: '', data: EMPTY, plain: '',
        appName: '', wmClass: '', title: '', pid: 0,
    };
}

export default class CopycopyExtension extends Extension {
    enable() {
        this._lastCopy = null;
        this._lastTrigger = null;
        this._serial = 0;
        this._pending = null;
        this._timeouts = new Set();

        this._dbus = Gio.DBusExportedObject.wrapJSObject(INTERFACE, this);
        this._dbus.export(Gio.DBus.session, OBJECT_PATH);

        this._selection = global.display.get_selection();
        this._ownerChanged = this._selection.connect(
            'owner-changed', (_selection, type, source) => {
                if (type === Meta.SelectionType.SELECTION_CLIPBOARD && source)
                    this._onCopy();
            });
    }

    disable() {
        this._selection.disconnect(this._ownerChanged);
        this._selection = null;
        for (const id of this._timeouts)
            GLib.source_remove(id);
        this._timeouts = null;
        this._dbus.unexport();
        this._dbus = null;
        this._pending = null;
    }

    _after(ms, callback) {
        const id = GLib.timeout_add(GLib.PRIORITY_DEFAULT, ms, () => {
            this._timeouts.delete(id);
            callback();
            return GLib.SOURCE_REMOVE;
        });
        this._timeouts.add(id);
    }

    _onCopy() {
        const now = nowMs();
        const last = this._lastCopy;
        if (last === null || now - last > DOUBLE_TAP_WINDOW_MS) {
            this._lastCopy = now;
            return;
        }
        this._lastCopy = null;
        if (this._lastTrigger !== null && now - this._lastTrigger < TRIGGER_COOLDOWN_MS)
            return;
        this._lastTrigger = now;
        const window = this._focusedWindow();
        this._after(SETTLE_MS, () => this._capture(window));
    }

    _focusedWindow() {
        const window = global.display.focus_window;
        if (!window)
            return {appName: '', wmClass: '', title: '', pid: 0};
        const app = Shell.WindowTracker.get_default().get_window_app(window);
        return {
            appName: app?.get_name() ?? '',
            wmClass: window.get_wm_class() ?? '',
            title: window.get_title() ?? '',
            pid: Math.max(window.get_pid(), 0),
        };
    }

    _read(type) {
        return new Promise(resolve => {
            const stream = Gio.MemoryOutputStream.new_resizable();
            this._selection.transfer_async(
                Meta.SelectionType.SELECTION_CLIPBOARD, type, -1, stream, null,
                (selection, result) => {
                    try {
                        selection.transfer_finish(result);
                        stream.close(null);
                        resolve(stream.steal_as_bytes().toArray());
                    } catch {
                        resolve(EMPTY);
                    }
                });
        });
    }

    async _readText(offered) {
        const type = TEXT_TYPES.find(t => offered.indexOf(t) >= 0);
        return type ? {type, data: await this._read(type)} : {type: '', data: EMPTY};
    }

    async _readContent() {
        const offered = this._selection.get_mimetypes(Meta.SelectionType.SELECTION_CLIPBOARD);
        const first = types => types.find(t => offered.indexOf(t) >= 0);

        const files = first(FILE_TYPES);
        if (files)
            return {kind: 'files', mime: files, data: await this._read(files), plain: ''};
        const image = first(IMAGE_TYPES);
        if (image)
            return {kind: 'image', mime: image, data: await this._read(image), plain: ''};
        const text = await this._readText(offered);
        const html = first(HTML_TYPES);
        if (html) {
            const plain = new TextDecoder().decode(text.data);
            return {kind: 'rich', mime: html, data: await this._read(html), plain};
        }
        if (text.type)
            return {kind: 'text', mime: text.type, data: text.data, plain: ''};
        return {kind: 'empty', mime: '', data: EMPTY, plain: ''};
    }

    async _capture(window) {
        const content = await this._readContent();
        if (!this._dbus)
            return;
        this._serial = (this._serial + 1) >>> 0;
        const serial = this._serial;
        this._pending = {serial, capture: {...content, ...window}};
        this._after(EXPIRY_MS, () => {
            if (this._pending?.serial === serial)
                this._pending = null;
        });
        this._dbus.emit_signal('CaptureReady', new GLib.Variant('(u)', [serial]));
    }

    GetVersion() {
        return Number(this.metadata.version ?? 0);
    }

    TakeCapture(serial) {
        const pending = this._pending;
        const taken = pending !== null && pending.serial === serial;
        const c = taken ? pending.capture : expired();
        if (taken)
            this._pending = null;
        return [c.kind, c.mime, c.data, c.plain, c.appName, c.wmClass, c.title, c.pid];
    }
}
"#;

} // verus!
